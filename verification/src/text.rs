//! Small string routines used across the crate, each proved against a plain
//! specification over `Seq<char>`.
use vstd::prelude::*;

verus! {

/// The ASCII digit for `d` (taken modulo ten).
pub open spec fn digit_char(d: nat) -> char {
    if d % 10 == 0 {
        '0'
    } else if d % 10 == 1 {
        '1'
    } else if d % 10 == 2 {
        '2'
    } else if d % 10 == 3 {
        '3'
    } else if d % 10 == 4 {
        '4'
    } else if d % 10 == 5 {
        '5'
    } else if d % 10 == 6 {
        '6'
    } else if d % 10 == 7 {
        '7'
    } else if d % 10 == 8 {
        '8'
    } else {
        '9'
    }
}

/// Decimal text of `n`, most significant digit first, without leading zeros.
pub open spec fn decimal(n: nat) -> Seq<char>
    decreases n,
{
    if n < 10 {
        seq![digit_char(n)]
    } else {
        decimal(n / 10).push(digit_char(n % 10))
    }
}

fn digit_str(d: u64) -> (r: &'static str)
    requires
        d < 10,
    ensures
        r@ == seq![digit_char(d as nat)],
{
    proof {
        reveal_strlit("0");
        reveal_strlit("1");
        reveal_strlit("2");
        reveal_strlit("3");
        reveal_strlit("4");
        reveal_strlit("5");
        reveal_strlit("6");
        reveal_strlit("7");
        reveal_strlit("8");
        reveal_strlit("9");
    }
    if d == 0 {
        "0"
    } else if d == 1 {
        "1"
    } else if d == 2 {
        "2"
    } else if d == 3 {
        "3"
    } else if d == 4 {
        "4"
    } else if d == 5 {
        "5"
    } else if d == 6 {
        "6"
    } else if d == 7 {
        "7"
    } else if d == 8 {
        "8"
    } else {
        "9"
    }
}

/// Decimal text of an unsigned integer, as `Display` writes it.
pub fn decimal_string(n: u64) -> (r: String)
    ensures
        r@ == decimal(n as nat),
    decreases n,
{
    if n < 10 {
        String::from_str(digit_str(n))
    } else {
        let mut s = decimal_string(n / 10);
        s.append(digit_str(n % 10));
        s
    }
}

/// The characters that Rust's `char::is_whitespace` accepts (Unicode White_Space).
pub open spec fn is_ws(c: char) -> bool {
    ||| c == '\t'
    ||| c == '\n'
    ||| c == '\u{0B}'
    ||| c == '\u{0C}'
    ||| c == '\r'
    ||| c == ' '
    ||| c == '\u{85}'
    ||| c == '\u{A0}'
    ||| c == '\u{1680}'
    ||| ('\u{2000}' <= c && c <= '\u{200A}')
    ||| c == '\u{2028}'
    ||| c == '\u{2029}'
    ||| c == '\u{202F}'
    ||| c == '\u{205F}'
    ||| c == '\u{3000}'
}

/// Whether `c` is Unicode whitespace.
pub fn char_is_ws(c: char) -> (r: bool)
    ensures
        r == is_ws(c),
{
    c == '\t' || c == '\n' || c == '\u{0B}' || c == '\u{0C}' || c == '\r' || c == ' ' || c
        == '\u{85}' || c == '\u{A0}' || c == '\u{1680}' || ('\u{2000}' <= c && c <= '\u{200A}')
        || c == '\u{2028}' || c == '\u{2029}' || c == '\u{202F}' || c == '\u{205F}' || c
        == '\u{3000}'
}

/// Every character of `s` is whitespace (so `s.trim()` is empty).
pub open spec fn all_ws(s: Seq<char>) -> bool {
    forall|i: int| 0 <= i < s.len() ==> is_ws(#[trigger] s[i])
}

/// Whether `s.trim().is_empty()`.
pub fn is_blank(s: &str) -> (r: bool)
    ensures
        r == all_ws(s@),
{
    let n = s.unicode_len();
    let mut i: usize = 0;
    while i < n
        invariant
            n == s@.len(),
            i <= n,
            forall|j: int| 0 <= j < i ==> is_ws(#[trigger] s@[j]),
        decreases n - i,
    {
        if !char_is_ws(s.get_char(i)) {
            return false;
        }
        i = i + 1;
    }
    true
}

/// Length of `s` once trailing whitespace is removed (`trim_end`).
pub open spec fn trim_end_len(s: Seq<char>) -> nat
    decreases s.len(),
{
    if s.len() == 0 {
        0
    } else if is_ws(s.last()) {
        trim_end_len(s.drop_last())
    } else {
        s.len()
    }
}

/// `s` without trailing whitespace.
pub open spec fn trim_end(s: Seq<char>) -> Seq<char> {
    s.subrange(0, trim_end_len(s) as int)
}

proof fn lemma_trim_end_len_bound(s: Seq<char>)
    ensures
        trim_end_len(s) <= s.len(),
    decreases s.len(),
{
    if s.len() > 0 && is_ws(s.last()) {
        lemma_trim_end_len_bound(s.drop_last());
    }
}

/// `s.trim_end()`.
pub fn trim_end_str(s: &str) -> (r: String)
    ensures
        r@ == trim_end(s@),
{
    let n = s.unicode_len();
    let mut k: usize = n;
    proof {
        assert(s@.subrange(0, n as int) =~= s@);
    }
    while k > 0 && char_is_ws(s.get_char(k - 1))
        invariant
            n == s@.len(),
            k <= n,
            trim_end_len(s@) == trim_end_len(s@.subrange(0, k as int)),
        decreases k,
    {
        proof {
            assert(s@.subrange(0, k as int).drop_last() =~= s@.subrange(0, k - 1));
        }
        k = k - 1;
    }
    proof {
        if k > 0 {
            assert(s@.subrange(0, k as int).last() == s@[k - 1]);
        }
    }
    String::from_str(s.substring_char(0, k))
}

/// `b` occurs in `a` at position `i`.
pub open spec fn occurs_at(a: Seq<char>, b: Seq<char>, i: int) -> bool {
    0 <= i && i + b.len() <= a.len() && a.subrange(i, i + b.len()) == b
}

/// `a.contains(b)` for strings.
pub open spec fn contains_text(a: Seq<char>, b: Seq<char>) -> bool {
    exists|i: int| occurs_at(a, b, i)
}

/// Whether `b` occurs at position `i` of `a`, checked character by character.
fn matches_at(a: &str, b: &str, i: usize) -> (r: bool)
    requires
        i + b@.len() <= a@.len(),
    ensures
        r == occurs_at(a@, b@, i as int),
{
    let _n = a.unicode_len();
    let m = b.unicode_len();
    let mut j: usize = 0;
    while j < m
        invariant
            m == b@.len(),
            _n == a@.len(),
            i + m <= a@.len(),
            j <= m,
            forall|k: int| 0 <= k < j ==> a@[i + k] == b@[k],
        decreases m - j,
    {
        if a.get_char(i + j) != b.get_char(j) {
            proof {
                assert(a@.subrange(i as int, i + m)[j as int] != b@[j as int]);
            }
            return false;
        }
        j = j + 1;
    }
    proof {
        assert(a@.subrange(i as int, i + m) =~= b@);
    }
    true
}

/// `a.contains(b)`.
pub fn str_contains(a: &str, b: &str) -> (r: bool)
    ensures
        r == contains_text(a@, b@),
{
    let n = a.unicode_len();
    let m = b.unicode_len();
    if m > n {
        proof {
            assert forall|i: int| !occurs_at(a@, b@, i) by {}
        }
        return false;
    }
    if m == 0 {
        proof {
            assert(a@.subrange(0, 0) =~= b@);
            assert(occurs_at(a@, b@, 0));
        }
        return true;
    }
    let mut i: usize = 0;
    while i <= n - m
        invariant
            n == a@.len(),
            m == b@.len(),
            1 <= m <= n,
            i <= n - m + 1,
            forall|k: int| 0 <= k < i ==> !occurs_at(a@, b@, k),
        decreases n - m + 1 - i,
    {
        if matches_at(a, b, i) {
            return true;
        }
        i = i + 1;
    }
    proof {
        assert forall|k: int| !occurs_at(a@, b@, k) by {
            if 0 <= k && k < i {
            }
        }
    }
    false
}

/// `a.starts_with(b)`.
pub fn str_starts_with(a: &str, b: &str) -> (r: bool)
    ensures
        r == (b@.len() <= a@.len() && a@.subrange(0, b@.len() as int) == b@),
{
    let n = a.unicode_len();
    let m = b.unicode_len();
    if m > n {
        return false;
    }
    matches_at(a, b, 0)
}

/// Equality of two string slices.
pub fn str_eq(a: &str, b: &str) -> (r: bool)
    ensures
        r == (a@ == b@),
{
    let n = a.unicode_len();
    let m = b.unicode_len();
    if n != m {
        return false;
    }
    let r = matches_at(a, b, 0);
    proof {
        assert(a@.subrange(0, n as int) =~= a@);
    }
    r
}

/// The parts joined with `sep` between neighbours.
pub open spec fn joined(parts: Seq<Seq<char>>, sep: Seq<char>) -> Seq<char>
    decreases parts.len(),
{
    if parts.len() == 0 {
        seq![]
    } else if parts.len() == 1 {
        parts[0]
    } else {
        joined(parts.drop_last(), sep) + sep + parts.last()
    }
}

/// The views of a vector of strings.
pub open spec fn views(v: Seq<String>) -> Seq<Seq<char>> {
    v.map_values(|s: String| s@)
}

/// `parts.join(sep)`.
pub fn join_strings(parts: &Vec<String>, sep: &str) -> (r: String)
    ensures
        r@ == joined(views(parts@), sep@),
{
    let mut out = String::new();
    let n = parts.len();
    let mut i: usize = 0;
    while i < n
        invariant
            n == parts@.len(),
            i <= n,
            out@ == joined(views(parts@).subrange(0, i as int), sep@),
        decreases n - i,
    {
        let ghost prev = views(parts@).subrange(0, i as int);
        proof {
            assert(views(parts@).subrange(0, i + 1).drop_last() =~= prev);
            assert(views(parts@).subrange(0, i + 1).last() == parts@[i as int]@);
        }
        if i > 0 {
            out.append(sep);
        } else {
            proof {
                assert(out@ =~= seq![]);
            }
        }
        out.append(parts[i].as_str());
        i = i + 1;
    }
    proof {
        assert(views(parts@).subrange(0, n as int) =~= views(parts@));
    }
    out
}

} // verus!
