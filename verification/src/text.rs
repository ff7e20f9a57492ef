//! Verified text utilities: character extraction, string equality,
//! lexicographic ordering.

use vstd::prelude::*;
use vstd::string::StrSliceExecFns;

verus! {

/// Lexicographic order on character sequences, comparing code points,
/// with a prefix ordered before every extension of it.
pub open spec fn lex_le(a: Seq<char>, b: Seq<char>) -> bool
    decreases a.len(),
{
    if a.len() == 0 {
        true
    } else if b.len() == 0 {
        false
    } else if a[0] < b[0] {
        true
    } else if b[0] < a[0] {
        false
    } else {
        lex_le(a.skip(1), b.skip(1))
    }
}

/// The characters of a string, in order, as a vector.
pub fn str_chars(s: &str) -> (v: Vec<char>)
    ensures
        v@ == s@,
{
    let n: usize = s.unicode_len();
    let mut v: Vec<char> = Vec::new();
    let mut i: usize = 0;
    while i < n
        invariant
            n == s@.len(),
            i <= n,
            v@ == s@.take(i as int),
        decreases n - i,
    {
        v.push(s.get_char(i));
        proof {
            assert(v@ =~= s@.take(i + 1 as int));
        }
        i = i + 1;
    }
    proof {
        assert(v@ =~= s@);
    }
    v
}

/// The lexicographic order relates every pair of sequences one way or the
/// other.
pub proof fn lemma_lex_le_total(a: Seq<char>, b: Seq<char>)
    ensures
        lex_le(a, b) || lex_le(b, a),
    decreases a.len(),
{
    if a.len() > 0 && b.len() > 0 {
        lemma_lex_le_total(a.skip(1), b.skip(1));
    }
}

/// The lexicographic order is transitive.
pub proof fn lemma_lex_le_trans(a: Seq<char>, b: Seq<char>, c: Seq<char>)
    requires
        lex_le(a, b),
        lex_le(b, c),
    ensures
        lex_le(a, c),
    decreases a.len(),
{
    if a.len() > 0 && b.len() > 0 && c.len() > 0 {
        if a[0] == b[0] && b[0] == c[0] {
            lemma_lex_le_trans(a.skip(1), b.skip(1), c.skip(1));
        }
    }
}

/// Only equal sequences are related both ways.
pub proof fn lemma_lex_le_antisymmetric(a: Seq<char>, b: Seq<char>)
    requires
        lex_le(a, b),
        lex_le(b, a),
    ensures
        a == b,
    decreases a.len(),
{
    if a.len() == 0 {
        assert(b.len() == 0);
        assert(a =~= b);
    } else {
        assert(b.len() > 0);
        assert(a[0] == b[0]);
        lemma_lex_le_antisymmetric(a.skip(1), b.skip(1));
        assert(a.len() == b.len());
        assert forall|i: int| 0 <= i < a.len() implies a[i] == b[i] by {
            if i > 0 {
                assert(a[i] == a.skip(1)[i - 1]);
                assert(b[i] == b.skip(1)[i - 1]);
            }
        }
        assert(a =~= b);
    }
}

/// Decide the lexicographic order on two strings.
pub fn str_le(a: &str, b: &str) -> (r: bool)
    ensures
        r == lex_le(a@, b@),
{
    let n: usize = a.unicode_len();
    let m: usize = b.unicode_len();
    let mut i: usize = 0;
    proof {
        assert(a@.skip(0) =~= a@);
        assert(b@.skip(0) =~= b@);
    }
    loop
        invariant
            n == a@.len(),
            m == b@.len(),
            i <= n,
            i <= m,
            lex_le(a@, b@) == lex_le(a@.skip(i as int), b@.skip(i as int)),
        decreases n - i,
    {
        if i >= n {
            return true;
        }
        if i >= m {
            return false;
        }
        let ca = a.get_char(i);
        let cb = b.get_char(i);
        if ca < cb {
            return true;
        }
        if cb < ca {
            return false;
        }
        proof {
            assert(a@.skip(i as int)[0] == a@[i as int]);
            assert(b@.skip(i as int)[0] == b@[i as int]);
            assert(a@.skip(i as int).skip(1) =~= a@.skip(i + 1));
            assert(b@.skip(i as int).skip(1) =~= b@.skip(i + 1));
        }
        i = i + 1;
    }
}

/// Decide the lexicographic order on two character vectors.
pub fn str_le_chars(a: &Vec<char>, b: &Vec<char>) -> (r: bool)
    ensures
        r == lex_le(a@, b@),
{
    let n = a.len();
    let m = b.len();
    let mut i: usize = 0;
    proof {
        assert(a@.skip(0) =~= a@);
        assert(b@.skip(0) =~= b@);
    }
    loop
        invariant
            n == a@.len(),
            m == b@.len(),
            i <= n,
            i <= m,
            lex_le(a@, b@) == lex_le(a@.skip(i as int), b@.skip(i as int)),
        decreases n - i,
    {
        if i >= n {
            return true;
        }
        if i >= m {
            return false;
        }
        let ca = a[i];
        let cb = b[i];
        if ca < cb {
            return true;
        }
        if cb < ca {
            return false;
        }
        proof {
            assert(a@.skip(i as int)[0] == a@[i as int]);
            assert(b@.skip(i as int)[0] == b@[i as int]);
            assert(a@.skip(i as int).skip(1) =~= a@.skip(i + 1));
            assert(b@.skip(i as int).skip(1) =~= b@.skip(i + 1));
        }
        i = i + 1;
    }
}

/// Character-for-character string equality, decided without assuming
/// anything of the standard comparison operators.
pub fn str_eq(a: &str, b: &str) -> (r: bool)
    ensures
        r == (a@ == b@),
{
    let n: usize = a.unicode_len();
    let m: usize = b.unicode_len();
    if n != m {
        proof {
            assert(a@.len() != b@.len());
        }
        return false;
    }
    let mut i: usize = 0;
    while i < n
        invariant
            n == a@.len(),
            n == b@.len(),
            i <= n,
            forall|j: int| 0 <= j < i ==> a@[j] == b@[j],
        decreases n - i,
    {
        if a.get_char(i) != b.get_char(i) {
            return false;
        }
        i = i + 1;
    }
    proof {
        assert(a@ =~= b@);
    }
    true
}

/// Relies on String::push: appends the given character to the end of the
/// string.
#[verifier::external_body]
fn push_char(s: &mut String, c: char)
    ensures
        final(s)@ == old(s)@.push(c),
{
    s.push(c);
}

/// Assemble a string from its characters.
pub fn chars_to_string(v: &Vec<char>) -> (s: String)
    ensures
        s@ == v@,
{
    let mut s = String::new();
    let n = v.len();
    let mut i: usize = 0;
    proof {
        assert(s@ =~= v@.take(0));
    }
    while i < n
        invariant
            n == v@.len(),
            i <= n,
            s@ == v@.take(i as int),
        decreases n - i,
    {
        push_char(&mut s, v[i]);
        proof {
            assert(v@.take(i as int).push(v@[i as int]) =~= v@.take(i + 1));
        }
        i = i + 1;
    }
    proof {
        assert(v@.take(n as int) =~= v@);
    }
    s
}

/// Append every character of `src` to `dst`.
pub fn append_chars(dst: &mut Vec<char>, src: &Vec<char>)
    ensures
        final(dst)@ == old(dst)@ + src@,
{
    let k = src.len();
    let ghost base = dst@;
    let mut j: usize = 0;
    proof {
        assert(base + src@.take(0) =~= base);
    }
    while j < k
        invariant
            k == src@.len(),
            j <= k,
            dst@ == base + src@.take(j as int),
        decreases k - j,
    {
        dst.push(src[j]);
        proof {
            assert((base + src@.take(j as int)).push(src@[j as int]) =~= base + src@.take(j + 1));
        }
        j = j + 1;
    }
    proof {
        assert(base + src@.take(k as int) =~= base + src@);
    }
}

/// Append every character of the literal `src` to `dst`.
pub fn append_str(dst: &mut Vec<char>, src: &str)
    ensures
        final(dst)@ == old(dst)@ + src@,
{
    let chars = str_chars(src);
    append_chars(dst, &chars);
}

/// The decimal digit character for a value below ten.
pub open spec fn dec_digit(d: int) -> char {
    ((d + 48) as u8) as char
}

/// The decimal representation of a number, most significant digit first,
/// without leading zeroes (a lone zero for zero).
pub open spec fn dec_rep(n: nat) -> Seq<char>
    decreases n,
{
    if n < 10 {
        seq![dec_digit(n as int)]
    } else {
        dec_rep(n / 10).push(dec_digit((n % 10) as int))
    }
}

/// The decimal digits of a number, as characters.
pub fn u64_digits(x: u64) -> (v: Vec<char>)
    ensures
        v@ == dec_rep(x as nat),
{
    let mut v: Vec<char> = Vec::new();
    if x == 0 {
        v.push('0');
        proof {
            assert(dec_digit(0) == '0');
            assert(v@ =~= dec_rep(0));
        }
        return v;
    }
    let mut n = x;
    while n > 0
        invariant
            n > 0 ==> dec_rep(x as nat) == dec_rep(n as nat) + v@,
            n == 0 ==> dec_rep(x as nat) == v@,
        decreases n,
    {
        let d = (n % 10) as u8;
        let c = (48 + d) as char;
        let ghost pre = v@;
        v.insert(0, c);
        proof {
            assert(c == dec_digit((n % 10) as int));
            assert(v@ =~= seq![c] + pre);
            if n >= 10 {
                assert(dec_rep(n as nat) == dec_rep((n as nat) / 10).push(c));
                assert(dec_rep((n as nat) / 10).push(c) + pre =~= dec_rep((n as nat) / 10) + (
                seq![c] + pre));
                assert((n / 10) as nat == (n as nat) / 10);
            } else {
                assert(dec_rep(n as nat) =~= seq![c]);
                assert(dec_rep(n as nat) + pre =~= seq![c] + pre);
            }
        }
        n = n / 10;
    }
    v
}

/// The decimal representation of a number, as a string.
pub fn u64_to_string(x: u64) -> (s: String)
    ensures
        s@ == dec_rep(x as nat),
{
    let v = u64_digits(x);
    chars_to_string(&v)
}

/// Every non-overlapping occurrence of `pat` in `s`, scanned left to right,
/// replaced by `to`; a sequence without occurrences — in particular when
/// `pat` is empty or longer than the rest — is left as it is.
pub open spec fn replace_all(s: Seq<char>, pat: Seq<char>, to: Seq<char>) -> Seq<char>
    decreases s.len(),
{
    if pat.len() == 0 || s.len() < pat.len() {
        s
    } else if s.take(pat.len() as int) == pat {
        to + replace_all(s.skip(pat.len() as int), pat, to)
    } else {
        seq![s[0]] + replace_all(s.skip(1), pat, to)
    }
}

/// Whether `pat` occurs in `s` at position `i`.
fn window_matches(s: &Vec<char>, i: usize, pat: &Vec<char>) -> (r: bool)
    requires
        i + pat@.len() <= s@.len(),
    ensures
        r == (s@.subrange(i as int, i + pat@.len()) == pat@),
{
    let n = s.len();
    let m = pat.len();
    let mut j: usize = 0;
    while j < m
        invariant
            n == s@.len(),
            m == pat@.len(),
            i + m <= s@.len(),
            j <= m,
            forall|l: int| 0 <= l < j ==> s@[i + l] == pat@[l],
        decreases m - j,
    {
        if s[i + j] != pat[j] {
            proof {
                assert(s@.subrange(i as int, i + pat@.len())[j as int] != pat@[j as int]);
            }
            return false;
        }
        j = j + 1;
    }
    proof {
        assert(s@.subrange(i as int, i + pat@.len()) =~= pat@);
    }
    true
}

/// Replace every non-overlapping occurrence of `pat` in `s` by `to`,
/// scanning left to right.
pub fn replace_chars(s: &Vec<char>, pat: &Vec<char>, to: &Vec<char>) -> (out: Vec<char>)
    requires
        pat@.len() > 0,
    ensures
        out@ == replace_all(s@, pat@, to@),
{
    let n = s.len();
    let m = pat.len();
    let mut out: Vec<char> = Vec::new();
    let mut i: usize = 0;
    proof {
        assert(s@.skip(0) =~= s@);
        assert(out@ + replace_all(s@, pat@, to@) =~= replace_all(s@, pat@, to@));
    }
    while i < n
        invariant
            n == s@.len(),
            m == pat@.len(),
            m > 0,
            i <= n,
            replace_all(s@, pat@, to@) == out@ + replace_all(s@.skip(i as int), pat@, to@),
        decreases n - i,
    {
        let ghost rem = s@.skip(i as int);
        if m <= n - i && window_matches(s, i, pat) {
            proof {
                assert(rem.take(m as int) =~= s@.subrange(i as int, i + m));
                assert(rem.skip(m as int) =~= s@.skip(i + m));
            }
            let k = to.len();
            let ghost mid = out@;
            let mut j: usize = 0;
            while j < k
                invariant
                    k == to@.len(),
                    j <= k,
                    out@ == mid + to@.take(j as int),
                decreases k - j,
            {
                out.push(to[j]);
                proof {
                    assert(mid + to@.take(j as int).push(to@[j as int]) =~= mid + to@.take(j + 1));
                    assert(to@.take(j as int).push(to@[j as int]) =~= to@.take(j + 1));
                }
                j = j + 1;
            }
            proof {
                assert(to@.take(k as int) =~= to@);
                assert(out@ =~= mid + to@);
                assert(replace_all(rem, pat@, to@) == to@ + replace_all(s@.skip(i + m), pat@, to@));
                assert(out@ + replace_all(s@.skip(i + m), pat@, to@) =~= mid + replace_all(
                    rem,
                    pat@,
                    to@,
                ));
            }
            i = i + m;
        } else {
            proof {
                if i + m <= n {
                    assert(rem.take(m as int) =~= s@.subrange(i as int, i + m));
                    assert(rem.take(m as int) != pat@);
                }
                assert(rem.skip(1) =~= s@.skip(i + 1));
                assert(rem =~= seq![rem[0]] + s@.skip(i + 1));
                assert(replace_all(rem, pat@, to@) == seq![rem[0]] + replace_all(
                    s@.skip(i + 1),
                    pat@,
                    to@,
                ));
                assert(rem[0] == s@[i as int]);
            }
            let ghost mid = out@;
            out.push(s[i]);
            proof {
                assert(out@ =~= mid + seq![s@[i as int]]);
                assert(out@ + replace_all(s@.skip(i + 1), pat@, to@) =~= mid + (
                seq![s@[i as int]] + replace_all(s@.skip(i + 1), pat@, to@)));
            }
            i = i + 1;
        }
    }
    proof {
        assert(s@.skip(n as int) =~= Seq::<char>::empty());
        assert(replace_all(s@.skip(n as int), pat@, to@) =~= Seq::<char>::empty());
        assert(out@ =~= out@ + Seq::<char>::empty());
    }
    out
}

} // verus!
