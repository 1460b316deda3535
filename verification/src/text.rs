//! Character and string helpers shared by the robots.txt parser: ASCII
//! case-insensitive prefix matching and whitespace trimming.

use vstd::prelude::*;
use vstd::string::StrSliceExecFns;

verus! {

/// Whitespace that directive values are trimmed of. A line never holds a
/// newline, so only space, tab and carriage return matter.
pub open spec fn is_space(c: char) -> bool {
    c == ' ' || c == '\t' || c == '\r'
}

/// `a` equals `b` up to ASCII case, where `b` is not an upper-case letter.
/// Code points 65 to 90 are `A` to `Z`; adding 32 gives the lower-case letter.
pub open spec fn lower_eq(a: char, b: char) -> bool {
    a == b || (65 <= a as u32 && a as u32 <= 90 && a as u32 + 32 == b as u32)
}

/// `l` starts with the pattern `p`, compared ASCII case-insensitively.
pub open spec fn starts_with_ci(l: Seq<char>, p: Seq<char>) -> bool {
    l.len() >= p.len() && (forall|i: int| 0 <= i < p.len() ==> lower_eq(l[i], p[i]))
}

/// `s` without its leading whitespace.
pub open spec fn trim_start_spec(s: Seq<char>) -> Seq<char>
    decreases s.len(),
{
    if s.len() > 0 && is_space(s[0]) {
        trim_start_spec(s.drop_first())
    } else {
        s
    }
}

/// `s` without its trailing whitespace.
pub open spec fn trim_end_spec(s: Seq<char>) -> Seq<char>
    decreases s.len(),
{
    if s.len() > 0 && is_space(s.last()) {
        trim_end_spec(s.drop_last())
    } else {
        s
    }
}

/// `s` without surrounding whitespace.
pub open spec fn trim_spec(s: Seq<char>) -> Seq<char> {
    trim_end_spec(trim_start_spec(s))
}

/// Whether `c` counts as whitespace for trimming.
pub fn is_space_char(c: char) -> (r: bool)
    ensures
        r == is_space(c),
{
    c == ' ' || c == '\t' || c == '\r'
}

/// ASCII case-insensitive comparison of one character against a pattern
/// character.
pub fn lower_eq_char(a: char, b: char) -> (r: bool)
    ensures
        r == lower_eq(a, b),
{
    let au: u32 = a as u32;
    let bu: u32 = b as u32;
    au == bu || (65 <= au && au <= 90 && au + 32 == bu)
}

/// ASCII case-insensitive prefix test.
pub fn starts_with_ci_str(l: &str, p: &str) -> (r: bool)
    ensures
        r == starts_with_ci(l@, p@),
{
    let ln = l.unicode_len();
    let pn = p.unicode_len();
    if ln < pn {
        return false;
    }
    let mut i: usize = 0;
    while i < pn
        invariant
            i <= pn,
            pn == p@.len(),
            ln == l@.len(),
            ln >= pn,
            forall|k: int| 0 <= k < i ==> lower_eq(l@[k], p@[k]),
        decreases pn - i,
    {
        if !lower_eq_char(l.get_char(i), p.get_char(i)) {
            return false;
        }
        i += 1;
    }
    true
}

/// Character-exact string equality.
pub fn str_eq(a: &str, b: &str) -> (r: bool)
    ensures
        r == (a@ == b@),
{
    let an = a.unicode_len();
    let bn = b.unicode_len();
    if an != bn {
        return false;
    }
    let mut i: usize = 0;
    while i < an
        invariant
            i <= an,
            an == a@.len(),
            bn == b@.len(),
            an == bn,
            forall|k: int| 0 <= k < i ==> a@[k] == b@[k],
        decreases an - i,
    {
        if a.get_char(i) != b.get_char(i) {
            return false;
        }
        i += 1;
    }
    proof {
        assert(a@ =~= b@);
    }
    true
}

/// Case-sensitive prefix test.
pub fn str_starts_with(l: &str, p: &str) -> (r: bool)
    ensures
        r == (l@.len() >= p@.len() && l@.take(p@.len() as int) == p@),
{
    let ln = l.unicode_len();
    let pn = p.unicode_len();
    if ln < pn {
        return false;
    }
    let mut i: usize = 0;
    while i < pn
        invariant
            i <= pn,
            pn == p@.len(),
            ln == l@.len(),
            ln >= pn,
            forall|k: int| 0 <= k < i ==> l@[k] == p@[k],
        decreases pn - i,
    {
        if l.get_char(i) != p.get_char(i) {
            proof {
                assert(l@.take(pn as int)[i as int] != p@[i as int]);
            }
            return false;
        }
        i += 1;
    }
    proof {
        assert(l@.take(pn as int) =~= p@);
    }
    true
}

/// Dropping `a` leading whitespace characters computes `trim_start_spec`.
proof fn lemma_trim_start_skip(s: Seq<char>, a: int)
    requires
        0 <= a <= s.len(),
        forall|i: int| 0 <= i < a ==> is_space(s[i]),
        a < s.len() ==> !is_space(s[a]),
    ensures
        trim_start_spec(s) == s.skip(a),
    decreases a,
{
    if a == 0 {
        assert(s.skip(0) =~= s);
    } else {
        assert(is_space(s[0]));
        let rest = s.drop_first();
        assert(forall|i: int| 0 <= i < a - 1 ==> is_space(rest[i]));
        lemma_trim_start_skip(rest, a - 1);
        assert(rest.skip(a - 1) =~= s.skip(a));
    }
}

/// Keeping the first `b` characters computes `trim_end_spec` when only
/// whitespace follows them.
proof fn lemma_trim_end_take(s: Seq<char>, b: int)
    requires
        0 <= b <= s.len(),
        forall|i: int| b <= i < s.len() ==> is_space(s[i]),
        b > 0 ==> !is_space(s[b - 1]),
    ensures
        trim_end_spec(s) == s.take(b),
    decreases s.len(),
{
    if b == s.len() {
        if s.len() > 0 && is_space(s.last()) {
            assert(false);
        }
        assert(s.take(b) =~= s);
    } else {
        assert(is_space(s.last()));
        let fore = s.drop_last();
        assert(forall|i: int| b <= i < fore.len() ==> is_space(fore[i]));
        assert(b > 0 ==> !is_space(fore[b - 1]));
        lemma_trim_end_take(fore, b);
        assert(fore.take(b) =~= s.take(b));
    }
}

/// Removes surrounding whitespace from a line.
pub fn trim(s: &str) -> (r: String)
    ensures
        r@ == trim_spec(s@),
{
    let n = s.unicode_len();
    let mut a: usize = 0;
    while a < n && is_space_char(s.get_char(a))
        invariant
            a <= n,
            n == s@.len(),
            forall|i: int| 0 <= i < a ==> is_space(s@[i]),
        decreases n - a,
    {
        a += 1;
    }
    if a == n {
        proof {
            lemma_trim_start_skip(s@, a as int);
            assert(s@.skip(a as int) =~= Seq::<char>::empty());
        }
        return String::new();
    }
    let mut b: usize = n;
    while b > a && is_space_char(s.get_char(b - 1))
        invariant
            a < b <= n,
            a < n,
            n == s@.len(),
            !is_space(s@[a as int]),
            forall|i: int| b <= i < n ==> is_space(s@[i]),
        decreases b,
    {
        b -= 1;
    }
    proof {
        assert(b > a);
        assert(!is_space(s@[b - 1]));
    }
    let piece = s.substring_char(a, b);
    proof {
        lemma_trim_start_skip(s@, a as int);
        let t = s@.skip(a as int);
        assert(forall|i: int| b - a <= i < t.len() ==> is_space(t[i]));
        assert(!is_space(t[b - a - 1]));
        lemma_trim_end_take(t, b - a);
        assert(t.take(b - a) =~= s@.subrange(a as int, b as int));
    }
    piece.to_owned()
}

} // verus!
