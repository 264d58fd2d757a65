//! Verified character-level string utilities.
//!
//! Symbol ids, signature lines, import module names and callee names are all
//! produced by slicing and searching source text; the functions here do that
//! work against exact sequence-level specifications.

use vstd::prelude::*;
use vstd::string::StrSliceExecFns;
use vstd::string::StringExecFns;

verus! {

/// Equality of two string slices, character by character.
pub fn str_eq(a: &str, b: &str) -> (r: bool)
    ensures
        r == (a@ == b@),
{
    let la = a.unicode_len();
    let lb = b.unicode_len();
    if la != lb {
        return false;
    }
    let mut i: usize = 0;
    while i < la
        invariant
            la == a@.len(),
            la == b@.len(),
            i <= la,
            forall|j: int| 0 <= j < i ==> a@[j] == b@[j],
        decreases la - i,
    {
        if a.get_char(i) != b.get_char(i) {
            assert(a@[i as int] != b@[i as int]);
            return false;
        }
        i += 1;
    }
    proof {
        assert(a@ =~= b@);
    }
    true
}

/// The haystack ends with the needle.
pub open spec fn spec_ends_with(h: Seq<char>, n: Seq<char>) -> bool {
    n.len() <= h.len() && h.subrange(h.len() - n.len(), h.len() as int) == n
}

pub fn str_ends_with(h: &str, n: &str) -> (r: bool)
    ensures
        r == spec_ends_with(h@, n@),
{
    let lh = h.unicode_len();
    let ln = n.unicode_len();
    if ln > lh {
        return false;
    }
    let tail = h.substring_char(lh - ln, lh);
    str_eq(tail, n)
}

/// The needle occurs somewhere in the haystack.
pub open spec fn spec_contains(h: Seq<char>, n: Seq<char>) -> bool {
    exists|i: int| 0 <= i <= h.len() - n.len() && #[trigger] h.subrange(i, i + n.len()) == n
}

pub fn str_contains(h: &str, n: &str) -> (r: bool)
    ensures
        r == spec_contains(h@, n@),
{
    let lh = h.unicode_len();
    let ln = n.unicode_len();
    if ln > lh {
        return false;
    }
    let mut i: usize = 0;
    loop
        invariant
            lh == h@.len(),
            ln == n@.len(),
            ln <= lh,
            i <= lh - ln,
            forall|j: int| 0 <= j < i ==> #[trigger] h@.subrange(j, j + n@.len()) != n@,
        decreases lh - ln - i,
    {
        let sub = h.substring_char(i, i + ln);
        if str_eq(sub, n) {
            assert(0 <= i as int <= h@.len() - n@.len() && h@.subrange(
                i as int,
                i as int + n@.len(),
            ) == n@);
            return true;
        }
        if i == lh - ln {
            assert(forall|j: int|
                0 <= j <= h@.len() - n@.len() ==> #[trigger] h@.subrange(j, j + n@.len()) != n@);
            return false;
        }
        i += 1;
    }
}

/// ASCII whitespace, the characters stripped from signature lines.
pub open spec fn is_ws(c: char) -> bool {
    c == ' ' || c == '\t' || c == '\r' || c == '\n'
}

/// Quote characters stripped from import module names.
pub open spec fn is_quote(c: char) -> bool {
    c == '"' || c == '\''
}

pub open spec fn ws_pred() -> spec_fn(char) -> bool {
    |c: char| is_ws(c)
}

pub open spec fn quote_pred() -> spec_fn(char) -> bool {
    |c: char| is_quote(c)
}

/// The sequence without its longest prefix of characters satisfying `p`.
pub open spec fn drop_leading(s: Seq<char>, p: spec_fn(char) -> bool) -> Seq<char>
    decreases s.len(),
{
    if s.len() > 0 && p(s[0]) {
        drop_leading(s.drop_first(), p)
    } else {
        s
    }
}

/// The sequence without its longest suffix of characters satisfying `p`.
pub open spec fn drop_trailing(s: Seq<char>, p: spec_fn(char) -> bool) -> Seq<char>
    decreases s.len(),
{
    if s.len() > 0 && p(s[s.len() - 1]) {
        drop_trailing(s.drop_last(), p)
    } else {
        s
    }
}

/// The sequence with the longest prefix and suffix of `p`-characters removed.
pub open spec fn spec_trim_by(s: Seq<char>, p: spec_fn(char) -> bool) -> Seq<char> {
    drop_trailing(drop_leading(s, p), p)
}

/// A source line trimmed of surrounding whitespace.
pub open spec fn spec_trim(s: Seq<char>) -> Seq<char> {
    spec_trim_by(s, ws_pred())
}

/// A module string with surrounding quotes removed.
pub open spec fn spec_strip_quotes(s: Seq<char>) -> Seq<char> {
    spec_trim_by(s, quote_pred())
}

proof fn lemma_drop_leading_at(s: Seq<char>, p: spec_fn(char) -> bool, a: int)
    requires
        0 <= a <= s.len(),
        forall|j: int| 0 <= j < a ==> p(s[j]),
        a == s.len() || !p(s[a]),
    ensures
        drop_leading(s, p) == s.skip(a),
    decreases a,
{
    if a == 0 {
        assert(s.skip(0) =~= s);
    } else {
        assert(p(s[0]));
        lemma_drop_leading_at(s.drop_first(), p, a - 1);
        assert(s.drop_first().skip(a - 1) =~= s.skip(a));
    }
}

proof fn lemma_drop_trailing_at(s: Seq<char>, p: spec_fn(char) -> bool, b: int)
    requires
        0 <= b <= s.len(),
        forall|j: int| b <= j < s.len() ==> p(s[j]),
        b == 0 || !p(s[b - 1]),
    ensures
        drop_trailing(s, p) == s.take(b),
    decreases s.len() - b,
{
    if b == s.len() {
        assert(s.take(b) =~= s);
    } else {
        assert(p(s[s.len() - 1]));
        lemma_drop_trailing_at(s.drop_last(), p, b);
        assert(s.drop_last().take(b) =~= s.take(b));
    }
}

fn char_is_ws(c: char) -> (r: bool)
    ensures
        r == is_ws(c),
{
    c == ' ' || c == '\t' || c == '\r' || c == '\n'
}

fn char_is_quote(c: char) -> (r: bool)
    ensures
        r == is_quote(c),
{
    c == '"' || c == '\''
}

/// Strip surrounding whitespace from a string slice.
pub fn trim_ws<'a>(s: &'a str) -> (r: &'a str)
    ensures
        r@ == spec_trim(s@),
{
    let len = s.unicode_len();
    let mut a: usize = 0;
    while a < len && char_is_ws(s.get_char(a))
        invariant
            len == s@.len(),
            a <= len,
            forall|j: int| 0 <= j < a ==> is_ws(s@[j]),
        decreases len - a,
    {
        a += 1;
    }
    let mut b: usize = len;
    while b > a && char_is_ws(s.get_char(b - 1))
        invariant
            len == s@.len(),
            a <= b <= len,
            forall|j: int| b <= j < len ==> is_ws(s@[j]),
        decreases b,
    {
        b -= 1;
    }
    let r = s.substring_char(a, b);
    proof {
        lemma_drop_leading_at(s@, ws_pred(), a as int);
        lemma_drop_trailing_at(s@.skip(a as int), ws_pred(), b - a);
        assert(s@.skip(a as int).take(b - a) =~= s@.subrange(a as int, b as int));
    }
    r
}

/// Strip surrounding single or double quotes from a string slice.
pub fn strip_quotes<'a>(s: &'a str) -> (r: &'a str)
    ensures
        r@ == spec_strip_quotes(s@),
{
    let len = s.unicode_len();
    let mut a: usize = 0;
    while a < len && char_is_quote(s.get_char(a))
        invariant
            len == s@.len(),
            a <= len,
            forall|j: int| 0 <= j < a ==> is_quote(s@[j]),
        decreases len - a,
    {
        a += 1;
    }
    let mut b: usize = len;
    while b > a && char_is_quote(s.get_char(b - 1))
        invariant
            len == s@.len(),
            a <= b <= len,
            forall|j: int| b <= j < len ==> is_quote(s@[j]),
        decreases b,
    {
        b -= 1;
    }
    let r = s.substring_char(a, b);
    proof {
        lemma_drop_leading_at(s@, quote_pred(), a as int);
        lemma_drop_trailing_at(s@.skip(a as int), quote_pred(), b - a);
        assert(s@.skip(a as int).take(b - a) =~= s@.subrange(a as int, b as int));
    }
    r
}

/// Everything after the last occurrence of `c`, or the whole sequence when
/// `c` does not occur.
pub open spec fn spec_after_last(s: Seq<char>, c: char) -> Seq<char>
    decreases s.len(),
{
    if s.len() == 0 {
        s
    } else if s[s.len() - 1] == c {
        Seq::empty()
    } else {
        spec_after_last(s.drop_last(), c).push(s[s.len() - 1])
    }
}

proof fn lemma_after_last_found(s: Seq<char>, c: char, i: int)
    requires
        0 <= i < s.len(),
        s[i] == c,
        forall|j: int| i < j < s.len() ==> s[j] != c,
    ensures
        spec_after_last(s, c) == s.skip(i + 1),
    decreases s.len(),
{
    if i == s.len() - 1 {
        assert(s.skip(i + 1) =~= Seq::<char>::empty());
    } else {
        assert(s[s.len() - 1] != c);
        lemma_after_last_found(s.drop_last(), c, i);
        assert(s.drop_last().skip(i + 1).push(s[s.len() - 1]) =~= s.skip(i + 1));
    }
}

proof fn lemma_after_last_none(s: Seq<char>, c: char)
    requires
        forall|j: int| 0 <= j < s.len() ==> s[j] != c,
    ensures
        spec_after_last(s, c) == s,
    decreases s.len(),
{
    if s.len() > 0 {
        lemma_after_last_none(s.drop_last(), c);
        assert(s.drop_last().push(s[s.len() - 1]) =~= s);
    }
}

/// The suffix after the last occurrence of `c`, as a slice.
pub fn after_last_char<'a>(s: &'a str, c: char) -> (r: &'a str)
    ensures
        r@ == spec_after_last(s@, c),
{
    let len = s.unicode_len();
    let mut k: usize = len;
    while k > 0
        invariant
            len == s@.len(),
            k <= len,
            forall|j: int| k <= j < len ==> s@[j] != c,
        decreases k,
    {
        if s.get_char(k - 1) == c {
            let r = s.substring_char(k, len);
            proof {
                lemma_after_last_found(s@, c, k - 1);
                assert(s@.skip(k as int) =~= s@.subrange(k as int, len as int));
            }
            return r;
        }
        k -= 1;
    }
    proof {
        lemma_after_last_none(s@, c);
    }
    s
}

/// The base file name of a path: what follows the last slash, or the path
/// itself when it has none; an empty base name is replaced by "unknown".
pub open spec fn spec_base_name(p: Seq<char>) -> Seq<char> {
    let b = spec_after_last(p, '/');
    if b.len() == 0 {
        "unknown"@
    } else {
        b
    }
}

pub fn base_name<'a>(p: &'a str) -> (r: &'a str)
    ensures
        r@ == spec_base_name(p@),
{
    let b = after_last_char(p, '/');
    if b.unicode_len() == 0 {
        "unknown"
    } else {
        b
    }
}

/// The qualified id of a symbol: the base file name, a colon, the declared
/// name.
pub open spec fn spec_qualified_id(file_name: Seq<char>, name: Seq<char>) -> Seq<char> {
    file_name + ":"@ + name
}

pub fn qualified_id(file_name: &str, name: &str) -> (r: String)
    ensures
        r@ == spec_qualified_id(file_name@, name@),
{
    let mut s = file_name.to_owned();
    s.append(":");
    s.append(name);
    s
}

/// The pseudo-id that stands for a whole source unit when no enclosing
/// symbol exists.
pub open spec fn spec_file_pseudo_id(file_path: Seq<char>) -> Seq<char> {
    file_path + ":__file__"@
}

pub fn file_pseudo_id(file_path: &str) -> (r: String)
    ensures
        r@ == spec_file_pseudo_id(file_path@),
{
    let mut s = file_path.to_owned();
    s.append(":__file__");
    s
}

/// The segments of `s` between newline characters; always at least one
/// segment, with an empty final segment when `s` ends in a newline.
pub open spec fn split_nl(s: Seq<char>) -> Seq<Seq<char>>
    decreases s.len(),
{
    if s.len() == 0 {
        seq![Seq::<char>::empty()]
    } else if s[0] == '\n' {
        seq![Seq::<char>::empty()] + split_nl(s.drop_first())
    } else {
        let rest = split_nl(s.drop_first());
        seq![seq![s[0]] + rest[0]] + rest.skip(1)
    }
}

/// The lines of a source unit: newline-separated segments, without the empty
/// segment that a trailing newline would add.
pub open spec fn spec_lines(s: Seq<char>) -> Seq<Seq<char>> {
    let segs = split_nl(s);
    if segs.last().len() == 0 {
        segs.drop_last()
    } else {
        segs
    }
}

proof fn lemma_split_nl_len(s: Seq<char>)
    ensures
        split_nl(s).len() >= 1,
    decreases s.len(),
{
    if s.len() > 0 {
        lemma_split_nl_len(s.drop_first());
    }
}

proof fn lemma_split_nl_no_nl(s: Seq<char>)
    requires
        forall|j: int| 0 <= j < s.len() ==> s[j] != '\n',
    ensures
        split_nl(s) == seq![s],
    decreases s.len(),
{
    if s.len() == 0 {
        assert(s =~= Seq::<char>::empty());
    } else {
        lemma_split_nl_no_nl(s.drop_first());
        assert(seq![s[0]] + s.drop_first() =~= s);
        assert(split_nl(s) =~= seq![s]);
    }
}

proof fn lemma_split_nl_step(s: Seq<char>, i: int)
    requires
        0 <= i < s.len(),
        s[i] == '\n',
        forall|j: int| 0 <= j < i ==> s[j] != '\n',
    ensures
        split_nl(s) == seq![s.take(i)] + split_nl(s.skip(i + 1)),
    decreases s.len(),
{
    if i == 0 {
        assert(s.take(0) =~= Seq::<char>::empty());
        assert(s.skip(1) =~= s.drop_first());
        assert(split_nl(s) =~= seq![s.take(0)] + split_nl(s.skip(1)));
    } else {
        let d = s.drop_first();
        lemma_split_nl_step(d, i - 1);
        lemma_split_nl_len(d.skip(i));
        assert(seq![s[0]] + (seq![d.take(i - 1)] + split_nl(d.skip(i)))[0] =~= s.take(i));
        assert(d.skip(i) =~= s.skip(i + 1));
        assert((seq![d.take(i - 1)] + split_nl(d.skip(i))).skip(1) =~= split_nl(s.skip(i + 1)));
        assert(split_nl(s) =~= seq![s.take(i)] + split_nl(s.skip(i + 1)));
    }
}

proof fn lemma_lines_step(s: Seq<char>, i: int)
    requires
        0 <= i < s.len(),
        s[i] == '\n',
        forall|j: int| 0 <= j < i ==> s[j] != '\n',
    ensures
        spec_lines(s) == seq![s.take(i)] + spec_lines(s.skip(i + 1)),
{
    lemma_split_nl_step(s, i);
    lemma_split_nl_len(s.skip(i + 1));
    let tail = split_nl(s.skip(i + 1));
    assert((seq![s.take(i)] + tail).last() == tail.last());
    if tail.last().len() == 0 {
        assert((seq![s.take(i)] + tail).drop_last() =~= seq![s.take(i)] + tail.drop_last());
    }
}

proof fn lemma_lines_no_nl(s: Seq<char>)
    requires
        forall|j: int| 0 <= j < s.len() ==> s[j] != '\n',
    ensures
        spec_lines(s) == if s.len() == 0 {
            Seq::<Seq<char>>::empty()
        } else {
            seq![s]
        },
{
    lemma_split_nl_no_nl(s);
    if s.len() == 0 {
        assert(seq![s].drop_last() =~= Seq::<Seq<char>>::empty());
    }
}

/// The `row`-th line of a source unit, or `None` when the unit has fewer
/// lines than that.
pub fn line_at<'a>(s: &'a str, row: usize) -> (r: Option<&'a str>)
    ensures
        match r {
            Some(l) => row < spec_lines(s@).len() && l@ == spec_lines(s@)[row as int],
            None => row >= spec_lines(s@).len(),
        },
{
    let len = s.unicode_len();
    let mut start: usize = 0;
    let mut r: usize = 0;
    proof {
        assert(s@.skip(0) =~= s@);
        assert(spec_lines(s@).skip(0) =~= spec_lines(s@));
    }
    loop
        invariant
            len == s@.len(),
            start <= len,
            r <= row,
            r <= spec_lines(s@).len(),
            spec_lines(s@).skip(r as int) == spec_lines(s@.skip(start as int)),
        decreases len - start,
    {
        let mut e: usize = start;
        while e < len && s.get_char(e) != '\n'
            invariant
                len == s@.len(),
                start <= e <= len,
                forall|j: int| start <= j < e ==> s@[j] != '\n',
            decreases len - e,
        {
            e += 1;
        }
        let ghost suffix = s@.skip(start as int);
        if e < len {
            proof {
                assert(suffix[e - start] == '\n');
                assert(forall|j: int| 0 <= j < e - start ==> suffix[j] != '\n');
                lemma_lines_step(suffix, e - start);
                assert(suffix.take(e - start) =~= s@.subrange(start as int, e as int));
                assert(suffix.skip(e - start + 1) =~= s@.skip(e + 1));
            }
            if r == row {
                let l = s.substring_char(start, e);
                proof {
                    assert(spec_lines(s@).skip(r as int)[0] == l@);
                    assert(spec_lines(s@)[row as int] == l@);
                }
                return Some(l);
            }
            proof {
                assert(spec_lines(s@).skip(r as int).skip(1) =~= spec_lines(s@).skip(
                    r as int + 1,
                ));
            }
            r += 1;
            start = e + 1;
        } else {
            proof {
                assert(forall|j: int| 0 <= j < suffix.len() ==> suffix[j] != '\n');
                lemma_lines_no_nl(suffix);
            }
            if start == len {
                proof {
                    assert(suffix.len() == 0);
                    assert(spec_lines(s@).skip(r as int).len() == 0);
                }
                return None;
            }
            if r == row {
                let l = s.substring_char(start, len);
                proof {
                    assert(suffix =~= s@.subrange(start as int, len as int));
                    assert(spec_lines(s@).skip(r as int).len() == 1);
                    assert(spec_lines(s@)[row as int] == spec_lines(s@).skip(r as int)[0]);
                }
                return Some(l);
            }
            proof {
                assert(spec_lines(s@).len() == r + 1);
            }
            return None;
        }
    }
}

} // verus!
