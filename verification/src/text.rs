//! Character-level work on strings: building them, reading their characters,
//! ordering them, and the two standard transformations the library uses.
use vstd::prelude::*;

verus! {

/// Calls `String::from_iter` on the characters: the string made of exactly
/// these characters, in order.
#[verifier::external_body]
pub(crate) fn string_from_chars(chars: &Vec<char>) -> (s: String)
    ensures
        s@ == chars@,
{
    chars.iter().collect::<String>()
}

/// Whether `c` has the Unicode property White_Space, the test of
/// `char::is_whitespace`.
pub open spec fn is_white_space(c: char) -> bool {
    let x = c as u32;
    ||| 0x9 <= x <= 0xd
    ||| x == 0x20
    ||| x == 0x85
    ||| x == 0xa0
    ||| x == 0x1680
    ||| 0x2000 <= x <= 0x200a
    ||| x == 0x2028
    ||| x == 0x2029
    ||| x == 0x202f
    ||| x == 0x205f
    ||| x == 0x3000
}

/// How many whitespace characters `s` starts with.
pub open spec fn leading_white(s: Seq<char>) -> nat
    decreases s.len(),
{
    if s.len() > 0 && is_white_space(s[0]) {
        1 + leading_white(s.drop_first())
    } else {
        0
    }
}

/// How many whitespace characters `s` ends with.
pub open spec fn trailing_white(s: Seq<char>) -> nat
    decreases s.len(),
{
    if s.len() > 0 && is_white_space(s.last()) {
        1 + trailing_white(s.drop_last())
    } else {
        0
    }
}

/// `s` without its leading and trailing whitespace.
pub open spec fn trim_of(s: Seq<char>) -> Seq<char> {
    let t = s.skip(leading_white(s) as int);
    t.take(t.len() - trailing_white(t))
}

/// `s` is empty or does not start with whitespace.
pub open spec fn starts_unspaced(s: Seq<char>) -> bool {
    s.len() == 0 || !is_white_space(s[0])
}

/// The leading whitespace is a prefix of `s`, and the character after it,
/// if any, is not whitespace.
pub proof fn lemma_leading_white(s: Seq<char>)
    ensures
        leading_white(s) <= s.len(),
        leading_white(s) < s.len() ==> !is_white_space(s[leading_white(s) as int]),
    decreases s.len(),
{
    if s.len() > 0 && is_white_space(s[0]) {
        lemma_leading_white(s.drop_first());
        if leading_white(s) < s.len() {
            assert(s[leading_white(s) as int] == s.drop_first()[leading_white(s.drop_first()) as int]);
        }
    }
}

/// The trailing whitespace is a suffix of `s`.
pub proof fn lemma_trailing_white(s: Seq<char>)
    ensures
        trailing_white(s) <= s.len(),
    decreases s.len(),
{
    if s.len() > 0 && is_white_space(s.last()) {
        lemma_trailing_white(s.drop_last());
    }
}

/// A trimmed string that is not empty starts with a character that is not
/// whitespace.
pub proof fn lemma_trim_starts_unspaced(s: Seq<char>)
    ensures
        starts_unspaced(trim_of(s)),
{
    lemma_leading_white(s);
    let t = s.skip(leading_white(s) as int);
    lemma_trailing_white(t);
    if trim_of(s).len() > 0 {
        assert(trim_of(s)[0] == s[leading_white(s) as int]);
    }
}

/// Calls `str::trim` and copies the slice it returns into a `String`: `s`
/// without leading and trailing whitespace, whitespace being the characters
/// with the Unicode property White_Space.
#[verifier::external_body]
pub(crate) fn trimmed(s: &str) -> (t: String)
    ensures
        t@ == trim_of(s@),
{
    s.trim().to_string()
}

/// Every character is ASCII.
pub open spec fn is_ascii_text(s: Seq<char>) -> bool {
    forall|i: int| 0 <= i < s.len() ==> (s[i] as u32) < 128
}

/// An ASCII capital letter becomes its small letter; any other character
/// stays.
pub open spec fn ascii_lower_char(c: char) -> char {
    if 0x41 <= (c as u32) <= 0x5a {
        ((c as u32) + 32) as char
    } else {
        c
    }
}

/// The ASCII lowering of every character.
pub open spec fn ascii_lowered(s: Seq<char>) -> Seq<char> {
    s.map_values(|c: char| ascii_lower_char(c))
}

/// What `str::to_lowercase` gives for `s`.
pub uninterp spec fn lowercase_of(s: Seq<char>) -> Seq<char>;

/// Calls `str::to_lowercase`. The result is named: the mapping is Unicode's.
/// Stated is its ASCII part: on ASCII text the capitals A to Z become a to z
/// and every other character stays.
#[verifier::external_body]
pub(crate) fn lowercased(s: &str) -> (t: String)
    ensures
        t@ == lowercase_of(s@),
        is_ascii_text(s@) ==> t@ == ascii_lowered(s@),
{
    s.to_lowercase()
}

/// The characters of `s`, in order.
pub fn chars_of(s: &String) -> (v: Vec<char>)
    ensures
        v@ == s@,
{
    let st = s.as_str();
    let n = st.unicode_len();
    let mut v: Vec<char> = Vec::new();
    for i in 0..n
        invariant
            n == st@.len(),
            st@ == s@,
            v@ == st@.take(i as int),
    {
        let c = st.get_char(i);
        v.push(c);
        proof {
            assert(v@ =~= st@.take(i + 1));
        }
    }
    proof {
        assert(st@.take(n as int) =~= st@);
    }
    v
}

/// `a` comes before `b` in the order of `String`: at the first position where
/// they differ `a` has the smaller character, or `a` is a proper prefix of
/// `b`. (Comparing UTF-8 bytes, as `String` does, orders characters by their
/// code points.)
pub open spec fn lex_lt(a: Seq<char>, b: Seq<char>) -> bool {
    exists|i: int| #[trigger] lex_witness(a, b, i)
}

/// `i` is where `a` and `b` first part, with `a` the smaller there.
pub open spec fn lex_witness(a: Seq<char>, b: Seq<char>, i: int) -> bool {
    &&& 0 <= i <= a.len()
    &&& i <= b.len()
    &&& a.take(i) == b.take(i)
    &&& ((i == a.len() && i < b.len()) || (i < a.len() && i < b.len() && (a[i] as int) < (b[i] as int)))
}

/// The order is a strict order: never both ways.
pub proof fn lemma_lex_asymmetric(a: Seq<char>, b: Seq<char>)
    ensures
        !(lex_lt(a, b) && lex_lt(b, a)),
{
    if lex_lt(a, b) && lex_lt(b, a) {
        let i = choose|i: int| #[trigger] lex_witness(a, b, i);
        let j = choose|j: int| #[trigger] lex_witness(b, a, j);
        if i < j {
            assert(a.take(j)[i] == b.take(j)[i]);
        } else if j < i {
            assert(a.take(i)[j] == b.take(i)[j]);
        }
    }
}

/// The order is transitive.
pub proof fn lemma_lex_transitive(a: Seq<char>, b: Seq<char>, c: Seq<char>)
    requires
        lex_lt(a, b),
        lex_lt(b, c),
    ensures
        lex_lt(a, c),
{
    let i = choose|i: int| #[trigger] lex_witness(a, b, i);
    let j = choose|j: int| #[trigger] lex_witness(b, c, j);
    if i < j {
        assert(b.take(j).take(i) =~= b.take(i));
        assert(c.take(j).take(i) =~= c.take(i));
        assert(a.take(i) =~= c.take(i));
        if i < a.len() {
            assert(b.take(j)[i] == c.take(j)[i]);
        }
        assert(lex_witness(a, c, i));
    } else if j < i {
        assert(a.take(i).take(j) =~= a.take(j));
        assert(b.take(i).take(j) =~= b.take(j));
        assert(a.take(j) =~= c.take(j));
        assert(a.take(i)[j] == b.take(i)[j]);
        assert(lex_witness(a, c, j));
    } else {
        assert(a.take(i) =~= c.take(i));
        assert(lex_witness(a, c, i));
    }
}

/// Two different sequences are ordered one way or the other.
pub proof fn lemma_lex_total(a: Seq<char>, b: Seq<char>)
    requires
        a != b,
    ensures
        lex_lt(a, b) || lex_lt(b, a),
{
    let m = if a.len() < b.len() { a.len() as int } else { b.len() as int };
    if forall|k: int| 0 <= k < m ==> a[k] == b[k] {
        assert(a.take(m) =~= b.take(m));
        if a.len() < b.len() {
            assert(lex_witness(a, b, m));
        } else if b.len() < a.len() {
            assert(lex_witness(b, a, m));
        } else {
            assert(a =~= b);
        }
    } else {
        let k = choose|k: int| 0 <= k < m && a[k] != b[k];
        let f = first_difference(a, b, k);
        assert(a.take(f) =~= b.take(f));
        if (a[f] as int) < (b[f] as int) {
            assert(lex_witness(a, b, f));
        } else {
            assert((b[f] as int) < (a[f] as int)) by {
                assert(a[f] != b[f]);
            }
            assert(lex_witness(b, a, f));
        }
    }
}

/// The first position at or before `k` where `a` and `b` differ.
proof fn first_difference(a: Seq<char>, b: Seq<char>, k: int) -> (f: int)
    requires
        0 <= k < a.len(),
        k < b.len(),
        a[k] != b[k],
    ensures
        0 <= f <= k,
        a[f] != b[f],
        forall|j: int| 0 <= j < f ==> a[j] == b[j],
    decreases k,
{
    if exists|j: int| 0 <= j < k && a[j] != b[j] {
        let j = choose|j: int| 0 <= j < k && a[j] != b[j];
        first_difference(a, b, j)
    } else {
        k
    }
}

/// The code point of `c`.
fn code_point(c: char) -> (r: u32)
    ensures
        r as int == c as int,
{
    c as u32
}

/// Whether `a` comes before `b`.
pub fn lex_less(a: &Vec<char>, b: &Vec<char>) -> (r: bool)
    ensures
        r == lex_lt(a@, b@),
{
    let n = if a.len() < b.len() { a.len() } else { b.len() };
    let mut i: usize = 0;
    while i < n
        invariant
            i <= n,
            n <= a.len(),
            n <= b.len(),
            n == a.len() || n == b.len(),
            a@.take(i as int) == b@.take(i as int),
        decreases n - i,
    {
        if a[i] != b[i] {
            let r = code_point(a[i]) < code_point(b[i]);
            proof {
                if r {
                    assert(lex_witness(a@, b@, i as int));
                } else {
                    assert((b[i as int] as int) < (a[i as int] as int)) by {
                        assert(a@[i as int] != b@[i as int]);
                    }
                    assert(lex_witness(b@, a@, i as int));
                    lemma_lex_asymmetric(a@, b@);
                }
            }
            return r;
        }
        proof {
            assert(a@.take(i + 1) =~= a@.take(i as int).push(a@[i as int]));
            assert(b@.take(i + 1) =~= b@.take(i as int).push(b@[i as int]));
        }
        i += 1;
    }
    if a.len() < b.len() {
        proof {
            assert(lex_witness(a@, b@, n as int));
        }
        true
    } else {
        proof {
            if lex_lt(a@, b@) {
                let j = choose|j: int| #[trigger] lex_witness(a@, b@, j);
                if j < n {
                    assert(a@.take(n as int)[j] == b@.take(n as int)[j]);
                }
            }
        }
        false
    }
}

} // verus!
