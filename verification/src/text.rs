//! Character-level text helpers: splitting into fields, decimal numbers, path names.

use vstd::prelude::*;

verus! {

// ---------------------------------------------------------------------------
// Characters and strings
// ---------------------------------------------------------------------------

/// The characters of `s`, in order.
pub fn chars_of(s: &str) -> (out: Vec<char>)
    ensures
        out@ == s@,
{
    let mut out: Vec<char> = Vec::new();
    for c in it: s.chars()
        invariant
            out@ == it.seq().take(it.index() as int),
            it.seq() == s@,
    {
        out.push(c);
    }
    out
}

/// Appends one character to `s` (`String::push`).
#[verifier::external_body]
pub(crate) fn push_char(s: &mut String, c: char)
    ensures
        final(s)@ == old(s)@.push(c),
{
    s.push(c);
}

/// A string holding exactly the characters `cs`.
pub fn string_from_chars(cs: &[char]) -> (out: String)
    ensures
        out@ == cs@,
{
    let mut out = String::new();
    for i in 0..cs.len()
        invariant
            out@ == cs@.take(i as int),
    {
        push_char(&mut out, cs[i]);
        assert(cs@.take(i as int).push(cs@[i as int]) =~= cs@.take(i + 1));
    }
    assert(cs@.take(cs@.len() as int) =~= cs@);
    out
}

/// Appends every character of `cs` to `out`.
pub fn push_chars(out: &mut String, cs: &[char])
    ensures
        final(out)@ == old(out)@ + cs@,
{
    for i in 0..cs.len()
        invariant
            out@ == old(out)@ + cs@.take(i as int),
    {
        push_char(out, cs[i]);
        assert(cs@.take(i as int).push(cs@[i as int]) =~= cs@.take(i + 1));
    }
    assert(cs@.take(cs@.len() as int) =~= cs@);
}

/// Appends every character of `s` to `out`.
pub fn push_str(out: &mut String, s: &str)
    ensures
        final(out)@ == old(out)@ + s@,
{
    let cs = chars_of(s);
    push_chars(out, cs.as_slice());
}

/// Whether two character sequences are equal.
pub fn chars_equal(a: &[char], b: &[char]) -> (r: bool)
    ensures
        r == (a@ == b@),
{
    if a.len() != b.len() {
        return false;
    }
    for i in 0..a.len()
        invariant
            a@.len() == b@.len(),
            forall|j: int| 0 <= j < i ==> a@[j] == b@[j],
    {
        if a[i] != b[i] {
            return false;
        }
    }
    assert(a@ =~= b@);
    true
}

/// Whether two strings hold the same characters.
pub fn text_equal(a: &str, b: &str) -> (r: bool)
    ensures
        r == (a@ == b@),
{
    let ca = chars_of(a);
    let cb = chars_of(b);
    chars_equal(ca.as_slice(), cb.as_slice())
}

// ---------------------------------------------------------------------------
// Splitting into fields
// ---------------------------------------------------------------------------

/// The maximal runs of non-separator items of `s`, where `cur` is the run
/// already started before `s`. Empty runs are not fields.
pub open spec fn split_from<T>(s: Seq<T>, is_sep: spec_fn(T) -> bool, cur: Seq<T>) -> Seq<Seq<T>>
    decreases s.len(),
{
    if s.len() == 0 {
        if cur.len() > 0 {
            seq![cur]
        } else {
            Seq::empty()
        }
    } else if is_sep(s[0]) {
        (if cur.len() > 0 {
            seq![cur]
        } else {
            Seq::empty()
        }) + split_from(s.drop_first(), is_sep, Seq::empty())
    } else {
        split_from(s.drop_first(), is_sep, cur.push(s[0]))
    }
}

/// The fields of `s`: its maximal non-empty runs of items that are not separators.
pub open spec fn fields<T>(s: Seq<T>, is_sep: spec_fn(T) -> bool) -> Seq<Seq<T>> {
    split_from(s, is_sep, Seq::empty())
}

/// `char::is_whitespace`: the characters with the Unicode `White_Space` property.
pub open spec fn is_unicode_whitespace(c: char) -> bool {
    ||| c == '\t'
    ||| c == '\n'
    ||| c == '\u{0B}'
    ||| c == '\u{0C}'
    ||| c == '\r'
    ||| c == ' '
    ||| c == '\u{85}'
    ||| c == '\u{A0}'
    ||| c == '\u{1680}'
    ||| ('\u{2000}' <= c && c <= '\u{200A}')
    ||| c == '\u{2028}'
    ||| c == '\u{2029}'
    ||| c == '\u{202F}'
    ||| c == '\u{205F}'
    ||| c == '\u{3000}'
}

/// Whether `c` is Unicode whitespace.
pub fn is_whitespace(c: char) -> (r: bool)
    ensures
        r == is_unicode_whitespace(c),
{
    c == '\t' || c == '\n' || c == '\u{0B}' || c == '\u{0C}' || c == '\r' || c == ' ' || c
        == '\u{85}' || c == '\u{A0}' || c == '\u{1680}' || ('\u{2000}' <= c && c <= '\u{200A}')
        || c == '\u{2028}' || c == '\u{2029}' || c == '\u{202F}' || c == '\u{205F}' || c
        == '\u{3000}'
}

/// The whitespace-separated fields of `s` (`str::split_whitespace`).
pub open spec fn whitespace_fields(s: Seq<char>) -> Seq<Seq<char>> {
    fields(s, |c: char| is_unicode_whitespace(c))
}

/// The `/`-separated fields of `s`.
pub open spec fn slash_fields(s: Seq<char>) -> Seq<Seq<char>> {
    fields(s, |c: char| c == '/')
}

/// The NUL-separated fields of `s`.
pub open spec fn nul_fields(s: Seq<u8>) -> Seq<Seq<u8>> {
    fields(s, |b: u8| b == 0)
}

/// One unfolding step of `split_from`, stated for the remainder after `i` items.
proof fn lemma_split_step<T>(s: Seq<T>, is_sep: spec_fn(T) -> bool, i: int, cur: Seq<T>)
    requires
        0 <= i < s.len(),
    ensures
        split_from(s.skip(i), is_sep, cur) == if is_sep(s[i]) {
            (if cur.len() > 0 {
                seq![cur]
            } else {
                Seq::empty()
            }) + split_from(s.skip(i + 1), is_sep, Seq::empty())
        } else {
            split_from(s.skip(i + 1), is_sep, cur.push(s[i]))
        },
{
    assert(s.skip(i).drop_first() =~= s.skip(i + 1));
}

/// Which items separate the fields of a character sequence.
pub enum Separator {
    Whitespace,
    Slash,
}

pub open spec fn separator_pred(sep: Separator) -> spec_fn(char) -> bool {
    match sep {
        Separator::Whitespace => |c: char| is_unicode_whitespace(c),
        Separator::Slash => |c: char| c == '/',
    }
}

fn is_separator(sep: &Separator, c: char) -> (r: bool)
    ensures
        r == separator_pred(*sep)(c),
{
    match sep {
        Separator::Whitespace => is_whitespace(c),
        Separator::Slash => c == '/',
    }
}

/// The fields of `s` between runs of `sep`.
pub fn split_fields(s: &[char], sep: Separator) -> (out: Vec<Vec<char>>)
    ensures
        out.deep_view() == fields(s@, separator_pred(sep)),
{
    let ghost p = separator_pred(sep);
    let mut out: Vec<Vec<char>> = Vec::new();
    let mut cur: Vec<char> = Vec::new();
    assert(s@.skip(0) =~= s@);
    for i in 0..s.len()
        invariant
            p == separator_pred(sep),
            fields(s@, p) == out.deep_view() + split_from(s@.skip(i as int), p, cur@),
    {
        proof {
            lemma_split_step(s@, p, i as int, cur@);
        }
        let c = s[i];
        if is_separator(&sep, c) {
            let ghost before = out.deep_view();
            if cur.len() > 0 {
                let done = cur;
                cur = Vec::new();
                assert(done.deep_view() =~= done@);
                out.push(done);
                assert(out.deep_view() =~= before + seq![done@]);
            }
            assert(cur@ =~= Seq::<char>::empty());
            assert(fields(s@, p) == out.deep_view() + split_from(s@.skip(i + 1), p, cur@));
        } else {
            cur.push(c);
        }
    }
    assert(s@.skip(s@.len() as int) =~= Seq::<char>::empty());
    let ghost before = out.deep_view();
    if cur.len() > 0 {
        assert(cur.deep_view() =~= cur@);
        let ghost last = cur@;
        out.push(cur);
        assert(out.deep_view() =~= before + seq![last]);
    } else {
        assert(out.deep_view() =~= before + Seq::<Seq<char>>::empty());
    }
    out
}

/// The fields of `s` between runs of NUL bytes.
pub fn split_nul_fields(s: &[u8]) -> (out: Vec<Vec<u8>>)
    ensures
        out.deep_view() == nul_fields(s@),
{
    let ghost p = |b: u8| b == 0;
    let mut out: Vec<Vec<u8>> = Vec::new();
    let mut cur: Vec<u8> = Vec::new();
    assert(s@.skip(0) =~= s@);
    for i in 0..s.len()
        invariant
            p == (|b: u8| b == 0),
            nul_fields(s@) == out.deep_view() + split_from(s@.skip(i as int), p, cur@),
    {
        proof {
            lemma_split_step(s@, p, i as int, cur@);
        }
        let b = s[i];
        if b == 0 {
            let ghost before = out.deep_view();
            if cur.len() > 0 {
                let done = cur;
                cur = Vec::new();
                assert(done.deep_view() =~= done@);
                out.push(done);
                assert(out.deep_view() =~= before + seq![done@]);
            }
            assert(cur@ =~= Seq::<u8>::empty());
            assert(nul_fields(s@) == out.deep_view() + split_from(s@.skip(i + 1), p, cur@));
        } else {
            cur.push(b);
        }
    }
    assert(s@.skip(s@.len() as int) =~= Seq::<u8>::empty());
    let ghost before = out.deep_view();
    if cur.len() > 0 {
        assert(cur.deep_view() =~= cur@);
        let ghost last = cur@;
        out.push(cur);
        assert(out.deep_view() =~= before + seq![last]);
    } else {
        assert(out.deep_view() =~= before + Seq::<Seq<u8>>::empty());
    }
    out
}

} // verus!
