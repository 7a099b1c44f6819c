//! Character-level helpers for names: ASCII case folding, case-insensitive
//! comparison, lexicographic order and decimal rendering of counts.
use vstd::prelude::*;

verus! {

/// ASCII lower-casing of one character; every other character is kept.
pub open spec fn ascii_lower(c: char) -> char {
    if 'A' <= c && c <= 'Z' {
        ((c as u32) + 32) as char
    } else {
        c
    }
}

/// ASCII lower-casing of a whole text.
pub open spec fn lower_seq(s: Seq<char>) -> Seq<char> {
    s.map_values(|c: char| ascii_lower(c))
}

/// Two texts are the same name when they agree after ASCII lower-casing.
pub open spec fn same_name(a: Seq<char>, b: Seq<char>) -> bool {
    lower_seq(a) == lower_seq(b)
}

/// Three-way result of a comparison.
#[derive(Clone, Copy, Debug, PartialEq, Eq, Structural)]
pub enum Order {
    Less,
    Equal,
    Greater,
}

/// Comparison of two mathematical integers.
pub open spec fn int_order(a: int, b: int) -> Order {
    if a < b {
        Order::Less
    } else if a == b {
        Order::Equal
    } else {
        Order::Greater
    }
}

/// Lexicographic order of texts, character by character (by code point);
/// a proper prefix comes first. This is the order of `str`.
pub open spec fn text_order(a: Seq<char>, b: Seq<char>) -> Order
    decreases a.len(),
{
    if a.len() == 0 {
        if b.len() == 0 {
            Order::Equal
        } else {
            Order::Less
        }
    } else if b.len() == 0 {
        Order::Greater
    } else if (a[0] as u32) < (b[0] as u32) {
        Order::Less
    } else if (a[0] as u32) > (b[0] as u32) {
        Order::Greater
    } else {
        text_order(a.drop_first(), b.drop_first())
    }
}

/// `a` comes no later than `b` in text order.
pub open spec fn text_le(a: Seq<char>, b: Seq<char>) -> bool {
    text_order(a, b) != Order::Greater
}

/// Text order is reversed by swapping its arguments.
pub proof fn lemma_text_order_swap(a: Seq<char>, b: Seq<char>)
    ensures
        text_order(a, b) == Order::Less <==> text_order(b, a) == Order::Greater,
        text_order(a, b) == Order::Equal <==> text_order(b, a) == Order::Equal,
    decreases a.len(),
{
    if a.len() > 0 && b.len() > 0 && (a[0] as u32) == (b[0] as u32) {
        lemma_text_order_swap(a.drop_first(), b.drop_first());
    }
}

/// `text_le` is transitive.
pub proof fn lemma_text_le_trans(a: Seq<char>, b: Seq<char>, c: Seq<char>)
    requires
        text_le(a, b),
        text_le(b, c),
    ensures
        text_le(a, c),
    decreases a.len(),
{
    if a.len() > 0 && b.len() > 0 && c.len() > 0 && (a[0] as u32) == (b[0] as u32) && (b[0] as u32)
        == (c[0] as u32) {
        lemma_text_le_trans(a.drop_first(), b.drop_first(), c.drop_first());
    }
}

/// Text order is lexicographic by code point: after a common prefix of
/// length `k`, the first differing character decides (the smaller code point
/// comes first), a text that ends there comes before a longer one, and two
/// texts that both end there are equal.
pub proof fn lemma_text_order_lexicographic(a: Seq<char>, b: Seq<char>, k: int)
    requires
        0 <= k <= a.len(),
        k <= b.len(),
        a.take(k) == b.take(k),
    ensures
        k < a.len() && k < b.len() && (a[k] as u32) < (b[k] as u32) ==> text_order(a, b)
            == Order::Less,
        k < a.len() && k < b.len() && (a[k] as u32) > (b[k] as u32) ==> text_order(a, b)
            == Order::Greater,
        k == a.len() && k < b.len() ==> text_order(a, b) == Order::Less,
        k < a.len() && k == b.len() ==> text_order(a, b) == Order::Greater,
        k == a.len() && k == b.len() ==> text_order(a, b) == Order::Equal,
    decreases k,
{
    if k > 0 {
        assert(a[0] == a.take(k)[0]);
        assert(b[0] == b.take(k)[0]);
        assert((a[0] as u32) == (b[0] as u32));
        assert(a.drop_first().take(k - 1) =~= a.take(k).drop_first());
        assert(b.drop_first().take(k - 1) =~= b.take(k).drop_first());
        lemma_text_order_lexicographic(a.drop_first(), b.drop_first(), k - 1);
        if k < a.len() {
            assert(a.drop_first()[k - 1] == a[k]);
        }
        if k < b.len() {
            assert(b.drop_first()[k - 1] == b[k]);
        }
    }
}

/// ASCII lower-casing folds exactly the 26 capitals `A`..`Z` (code points
/// 65..=90) onto `a`..`z` (code points 97..=122), and keeps every other
/// character.
pub proof fn lemma_ascii_lower(c: char)
    ensures
        65 <= (c as u32) <= 90 ==> (ascii_lower(c) as u32) == (c as u32) + 32,
        !(65 <= (c as u32) <= 90) ==> ascii_lower(c) == c,
        97 <= (ascii_lower(c) as u32) <= 122 <==> (97 <= (c as u32) <= 122 || 65 <= (c as u32)
            <= 90),
{
}

/// Two names that differ only in the case of ASCII letters are the same
/// name: at each position the characters are equal, or one is an ASCII
/// capital and the other its small letter.
pub proof fn lemma_case_variants_same_name(a: Seq<char>, b: Seq<char>)
    requires
        a.len() == b.len(),
        forall|i: int|
            0 <= i < a.len() ==> {
                ||| a[i] == b[i]
                ||| 65 <= (a[i] as u32) <= 90 && (b[i] as u32) == (a[i] as u32) + 32
                ||| 65 <= (b[i] as u32) <= 90 && (a[i] as u32) == (b[i] as u32) + 32
            },
    ensures
        same_name(a, b),
{
    assert forall|i: int| 0 <= i < a.len() implies #[trigger] lower_seq(a)[i] == lower_seq(b)[i] by {
        lemma_ascii_lower(a[i]);
        lemma_ascii_lower(b[i]);
        if a[i] != b[i] {
            char_u32_injective(ascii_lower(a[i]), ascii_lower(b[i]));
        }
    }
    assert(lower_seq(a) =~= lower_seq(b));
}

/// Every text is equal to itself in text order.
pub proof fn lemma_text_order_refl(a: Seq<char>)
    ensures
        text_order(a, a) == Order::Equal,
    decreases a.len(),
{
    if a.len() > 0 {
        lemma_text_order_refl(a.drop_first());
    }
}

proof fn char_u32_injective(x: char, y: char)
    requires
        x as u32 == y as u32,
    ensures
        x == y,
{
}

/// Equal in text order means the same text.
pub proof fn lemma_text_order_equal(a: Seq<char>, b: Seq<char>)
    requires
        text_order(a, b) == Order::Equal,
    ensures
        a == b,
    decreases a.len(),
{
    if a.len() > 0 {
        assert(b.len() > 0);
        assert((a[0] as u32) == (b[0] as u32));
        lemma_text_order_equal(a.drop_first(), b.drop_first());
        assert(a =~= seq![a[0]] + a.drop_first());
        assert(b =~= seq![b[0]] + b.drop_first());
        char_u32_injective(a[0], b[0]);
    }
}

/// The decimal digit character for `d < 10`.
pub open spec fn digit_char(d: nat) -> char {
    ((d + 48) as u32) as char
}

/// Decimal rendering of a natural number, without leading zeros.
pub open spec fn decimal(n: nat) -> Seq<char>
    decreases n,
{
    if n < 10 {
        seq![digit_char(n)]
    } else {
        decimal(n / 10).push(digit_char(n % 10))
    }
}

fn lower_char(c: char) -> (r: char)
    ensures
        r == ascii_lower(c),
{
    if 'A' <= c && c <= 'Z' {
        let b: u8 = c as u8;
        let l: u8 = b + 32;
        l as char
    } else {
        c
    }
}

/// The characters of a text, in order.
pub fn chars_of(s: &str) -> (v: Vec<char>)
    ensures
        v@ == s@,
{
    let mut v: Vec<char> = Vec::new();
    for c in it: s.chars()
        invariant
            v@ == it.seq().take(it.index() as int),
    {
        v.push(c);
    }
    v
}

/// Appends one character to a `String`.
/// Trusted: `String::push`, which std documents as appending the given
/// character to the end of the string.
#[verifier::external_body]
fn push_char(s: &mut String, c: char)
    ensures
        final(s)@ == old(s)@.push(c),
{
    s.push(c);
}

/// ASCII lower-casing of a text, as `str::to_ascii_lowercase` does it.
pub fn to_ascii_lowercase(s: &str) -> (r: String)
    ensures
        r@ == lower_seq(s@),
{
    let cs = chars_of(s);
    let mut r = String::new();
    let mut i: usize = 0;
    while i < cs.len()
        invariant
            i <= cs@.len(),
            cs@ == s@,
            r@ == lower_seq(cs@.take(i as int)),
        decreases cs@.len() - i,
    {
        let l = lower_char(cs[i]);
        push_char(&mut r, l);
        i += 1;
        assert(lower_seq(cs@.take(i as int)) =~= lower_seq(cs@.take(i - 1)).push(l));
    }
    assert(cs@.take(cs@.len() as int) =~= cs@);
    r
}

/// Case-insensitive (ASCII) equality of two texts, as
/// `str::eq_ignore_ascii_case` decides it.
pub fn eq_ignore_ascii_case(a: &str, b: &str) -> (r: bool)
    ensures
        r == same_name(a@, b@),
{
    let ca = chars_of(a);
    let cb = chars_of(b);
    if ca.len() != cb.len() {
        assert(lower_seq(a@).len() != lower_seq(b@).len());
        return false;
    }
    let mut i: usize = 0;
    while i < ca.len()
        invariant
            i <= ca@.len(),
            ca@.len() == cb@.len(),
            ca@ == a@,
            cb@ == b@,
            forall|j: int| 0 <= j < i ==> ascii_lower(#[trigger] ca@[j]) == ascii_lower(cb@[j]),
        decreases ca@.len() - i,
    {
        if lower_char(ca[i]) != lower_char(cb[i]) {
            assert(lower_seq(a@)[i as int] != lower_seq(b@)[i as int]);
            return false;
        }
        i += 1;
    }
    assert(lower_seq(a@) =~= lower_seq(b@));
    true
}

/// Lexicographic comparison of two texts.
pub fn compare_text(a: &str, b: &str) -> (r: Order)
    ensures
        r == text_order(a@, b@),
{
    let ca = chars_of(a);
    let cb = chars_of(b);
    let mut i: usize = 0;
    assert(ca@.skip(0) =~= ca@);
    assert(cb@.skip(0) =~= cb@);
    while i < ca.len() && i < cb.len()
        invariant
            i <= ca@.len(),
            i <= cb@.len(),
            ca@ == a@,
            cb@ == b@,
            text_order(a@, b@) == text_order(ca@.skip(i as int), cb@.skip(i as int)),
        decreases ca@.len() - i,
    {
        let x: u32 = ca[i] as u32;
        let y: u32 = cb[i] as u32;
        assert(ca@.skip(i as int)[0] == ca@[i as int]);
        assert(cb@.skip(i as int)[0] == cb@[i as int]);
        if x < y {
            assert(text_order(ca@.skip(i as int), cb@.skip(i as int)) == Order::Less);
            return Order::Less;
        } else if x > y {
            assert(text_order(ca@.skip(i as int), cb@.skip(i as int)) == Order::Greater);
            return Order::Greater;
        }
        assert(ca@.skip(i as int).drop_first() =~= ca@.skip(i + 1));
        assert(cb@.skip(i as int).drop_first() =~= cb@.skip(i + 1));
        i += 1;
    }
    if ca.len() == i {
        if cb.len() == i {
            Order::Equal
        } else {
            Order::Less
        }
    } else {
        Order::Greater
    }
}

/// Copies a text into a new `String`.
pub fn text_to_string(s: &str) -> (r: String)
    ensures
        r@ == s@,
{
    s.to_owned()
}

/// Appends a text to a `String`.
pub fn append_text(r: &mut String, s: &str)
    ensures
        final(r)@ == old(r)@ + s@,
{
    let cs = chars_of(s);
    let mut i: usize = 0;
    while i < cs.len()
        invariant
            i <= cs@.len(),
            cs@ == s@,
            r@ == old(r)@ + cs@.take(i as int),
        decreases cs@.len() - i,
    {
        push_char(r, cs[i]);
        i += 1;
        assert(old(r)@ + cs@.take(i as int) =~= (old(r)@ + cs@.take(i - 1)).push(cs@[i - 1]));
    }
    assert(cs@.take(cs@.len() as int) =~= cs@);
}

fn digit(d: u64) -> (c: char)
    requires
        d < 10,
    ensures
        c == digit_char(d as nat),
{
    let b: u8 = d as u8;
    let x: u8 = b + 48;
    x as char
}

/// Appends the decimal rendering of `n` to a `String`.
pub fn append_decimal(r: &mut String, n: u64)
    ensures
        final(r)@ == old(r)@ + decimal(n as nat),
    decreases n,
{
    if n >= 10 {
        append_decimal(r, n / 10);
    }
    let c = digit(n % 10);
    push_char(r, c);
    if n >= 10 {
        assert(decimal(n as nat) == decimal((n / 10) as nat).push(c));
        assert(old(r)@ + decimal(n as nat) =~= (old(r)@ + decimal((n / 10) as nat)).push(c));
    } else {
        assert(old(r)@ + decimal(n as nat) =~= old(r)@.push(c));
    }
}

} // verus!
