//! Text helpers: whitespace trimming, comma separated lists and the
//! in-query skip marker.

use vstd::prelude::*;

verus! {

/// Whether `c` has the Unicode `White_Space` property (the characters
/// that `char::is_whitespace` accepts).
pub open spec fn is_white_space(c: char) -> bool {
    let u = c as u32;
    (0x09 <= u <= 0x0d) || u == 0x20 || u == 0x85 || u == 0xa0 || u == 0x1680 || (0x2000 <= u
        <= 0x200a) || u == 0x2028 || u == 0x2029 || u == 0x202f || u == 0x205f || u == 0x3000
}

/// Whether `c` has the Unicode `White_Space` property.
pub fn char_is_whitespace(c: char) -> (r: bool)
    ensures
        r == is_white_space(c),
{
    let u = c as u32;
    (0x09 <= u && u <= 0x0d) || u == 0x20 || u == 0x85 || u == 0xa0 || u == 0x1680 || (0x2000
        <= u && u <= 0x200a) || u == 0x2028 || u == 0x2029 || u == 0x202f || u == 0x205f || u
        == 0x3000
}

/// `s` without its leading whitespace.
pub open spec fn trim_start(s: Seq<char>) -> Seq<char>
    decreases s.len(),
{
    if s.len() > 0 && is_white_space(s[0]) {
        trim_start(s.drop_first())
    } else {
        s
    }
}

/// `s` without its trailing whitespace.
pub open spec fn trim_end(s: Seq<char>) -> Seq<char>
    decreases s.len(),
{
    if s.len() > 0 && is_white_space(s.last()) {
        trim_end(s.drop_last())
    } else {
        s
    }
}

/// `s` without surrounding whitespace.
pub open spec fn trim(s: Seq<char>) -> Seq<char> {
    trim_end(trim_start(s))
}

/// The pieces of `s` between commas, in order; `s` without a comma is one
/// piece, and the empty text is one empty piece.
pub open spec fn split_commas(s: Seq<char>) -> Seq<Seq<char>>
    decreases s.len(),
{
    if s.len() == 0 {
        seq![Seq::<char>::empty()]
    } else {
        let prev = split_commas(s.drop_last());
        if s.last() == ',' {
            prev.push(Seq::<char>::empty())
        } else {
            prev.update(prev.len() - 1, prev.last().push(s.last()))
        }
    }
}

/// The trimmed, non-empty pieces among `pieces`, in order.
pub open spec fn kept_entries(pieces: Seq<Seq<char>>) -> Seq<Seq<char>>
    decreases pieces.len(),
{
    if pieces.len() == 0 {
        Seq::empty()
    } else {
        let prev = kept_entries(pieces.drop_last());
        if trim(pieces.last()).len() > 0 {
            prev.push(trim(pieces.last()))
        } else {
            prev
        }
    }
}

/// The entries of a comma separated list: each piece trimmed, the empty
/// ones dropped. The empty text has no entry.
pub open spec fn list_entries(s: Seq<char>) -> Seq<Seq<char>> {
    kept_entries(split_commas(s))
}

proof fn lemma_trim_start_at(s: Seq<char>, a: int)
    requires
        0 <= a <= s.len(),
        forall|k: int| 0 <= k < a ==> is_white_space(#[trigger] s[k]),
        a == s.len() || !is_white_space(s[a]),
    ensures
        trim_start(s) == s.subrange(a, s.len() as int),
    decreases a,
{
    if a > 0 {
        let t = s.drop_first();
        assert forall|k: int| 0 <= k < a - 1 implies is_white_space(#[trigger] t[k]) by {
            assert(t[k] == s[k + 1]);
        }
        lemma_trim_start_at(t, a - 1);
        assert(t.subrange(a - 1, t.len() as int) =~= s.subrange(a, s.len() as int));
    } else {
        assert(s.subrange(0, s.len() as int) =~= s);
    }
}

proof fn lemma_trim_end_at(s: Seq<char>, b: int)
    requires
        0 <= b <= s.len(),
        forall|k: int| b <= k < s.len() ==> is_white_space(#[trigger] s[k]),
        b == 0 || !is_white_space(s[b - 1]),
    ensures
        trim_end(s) == s.subrange(0, b),
    decreases s.len() - b,
{
    if b < s.len() {
        let t = s.drop_last();
        assert forall|k: int| b <= k < t.len() implies is_white_space(#[trigger] t[k]) by {
            assert(t[k] == s[k]);
        }
        lemma_trim_end_at(t, b);
        assert(t.subrange(0, b) =~= s.subrange(0, b));
    } else {
        assert(s.subrange(0, s.len() as int) =~= s);
    }
}

/// `s` without surrounding whitespace.
pub fn trim_str(s: &str) -> (r: &str)
    ensures
        r@ == trim(s@),
{
    let n = s.unicode_len();
    let mut a: usize = 0;
    while a < n && char_is_whitespace(s.get_char(a))
        invariant
            n == s@.len(),
            a <= n,
            forall|k: int| 0 <= k < a ==> is_white_space(#[trigger] s@[k]),
        decreases n - a,
    {
        a = a + 1;
    }
    let mut b: usize = n;
    while b > a && char_is_whitespace(s.get_char(b - 1))
        invariant
            n == s@.len(),
            a <= b <= n,
            forall|k: int| b <= k < n ==> is_white_space(#[trigger] s@[k]),
        decreases b - a,
    {
        b = b - 1;
    }
    let r = s.substring_char(a, b);
    proof {
        lemma_trim_start_at(s@, a as int);
        let t = s@.subrange(a as int, n as int);
        assert forall|k: int| b - a <= k < t.len() implies is_white_space(#[trigger] t[k]) by {
            assert(t[k] == s@[k + a]);
        }
        if b > a {
            assert(t[b - a - 1] == s@[b - 1]);
        }
        lemma_trim_end_at(t, b - a);
        assert(t.subrange(0, b - a) =~= s@.subrange(a as int, b as int));
    }
    r
}


/// The texts held by a vector of strings.
pub open spec fn views_of(v: Seq<String>) -> Seq<Seq<char>> {
    v.map_values(|x: String| x@)
}

/// Whether `v` holds a string whose text is `x`.
pub fn contains_string(v: &Vec<String>, x: &str) -> (r: bool)
    ensures
        r == views_of(v@).contains(x@),
{
    let owned = x.to_owned();
    let mut i: usize = 0;
    while i < v.len()
        invariant
            owned@ == x@,
            i <= v@.len(),
            forall|k: int| 0 <= k < i ==> v@[k]@ != x@,
        decreases v@.len() - i,
    {
        if v[i] == owned {
            assert(views_of(v@)[i as int] == x@);
            return true;
        }
        i = i + 1;
    }
    assert forall|k: int| 0 <= k < views_of(v@).len() implies views_of(v@)[k] != x@ by {
        assert(views_of(v@)[k] == v@[k]@);
    }
    false
}

/// Appends the trimmed `piece` to `out` unless it is empty.
fn keep_entry(out: &mut Vec<String>, piece: &str)
    ensures
        views_of(final(out)@) == (if trim(piece@).len() > 0 {
            views_of(old(out)@).push(trim(piece@))
        } else {
            views_of(old(out)@)
        }),
{
    let t = trim_str(piece);
    if t.unicode_len() > 0 {
        out.push(t.to_owned());
        assert(views_of(final(out)@) =~= views_of(old(out)@).push(trim(piece@)));
    }
}

/// Parses a comma separated list: split on commas, each piece trimmed of
/// surrounding whitespace, empty pieces dropped.
pub fn parse_list(s: &str) -> (r: Vec<String>)
    ensures
        views_of(r@) == list_entries(s@),
{
    let n = s.unicode_len();
    let mut out: Vec<String> = Vec::new();
    let mut start: usize = 0;
    let mut i: usize = 0;
    let ghost mut done: Seq<Seq<char>> = Seq::empty();
    assert(s@.take(0) =~= Seq::<char>::empty());
    assert(s@.subrange(0, 0) =~= Seq::<char>::empty());
    assert(views_of(out@) =~= Seq::<Seq<char>>::empty());
    while i < n
        invariant
            n == s@.len(),
            start <= i <= n,
            split_commas(s@.take(i as int)) == done.push(s@.subrange(start as int, i as int)),
            views_of(out@) == kept_entries(done),
        decreases n - i,
    {
        let c = s.get_char(i);
        let ghost prefix = s@.take(i as int + 1);
        assert(prefix.drop_last() =~= s@.take(i as int));
        assert(prefix.last() == c);
        if c == ',' {
            let piece = s.substring_char(start, i);
            keep_entry(&mut out, piece);
            proof {
                let old_done = done;
                done = done.push(piece@);
                assert(done.drop_last() =~= old_done);
                assert(s@.subrange(i as int + 1, i as int + 1) =~= Seq::<char>::empty());
            }
            start = i + 1;
        } else {
            proof {
                assert(s@.subrange(start as int, i as int).push(c) =~= s@.subrange(
                    start as int,
                    i as int + 1,
                ));
                assert(done.push(s@.subrange(start as int, i as int)).update(
                    done.len() as int,
                    s@.subrange(start as int, i as int + 1),
                ) =~= done.push(s@.subrange(start as int, i as int + 1)));
            }
        }
        i = i + 1;
    }
    let piece = s.substring_char(start, n);
    keep_entry(&mut out, piece);
    proof {
        assert(s@.take(n as int) =~= s@);
        let all = done.push(piece@);
        assert(all.drop_last() =~= done);
    }
    out
}

/// Whether the comma separated list `list` holds `value` as one of its
/// entries (see `parse_list`).
pub fn comma_separated_list_contains(list: &str, value: &str) -> (r: bool)
    ensures
        r == list_entries(list@).contains(value@),
{
    let entries = parse_list(list);
    contains_string(&entries, value)
}


/// Whether `pattern` compiles as a regular expression of the `regex` crate
/// and the compiled expression finds a match anywhere in `haystack`.
pub uninterp spec fn regex_finds(pattern: Seq<char>, haystack: Seq<char>) -> bool;

/// Relies on `regex::Regex::new` and `regex::Regex::is_match`: compiles
/// `pattern` and tests for a match anywhere in `haystack`; a pattern that
/// does not compile matches nothing. The answer depends on the two texts
/// alone.
#[verifier::external_body]
fn regex_is_match(pattern: &str, haystack: &str) -> (r: bool)
    ensures
        r == regex_finds(pattern@, haystack@),
{
    regex::Regex::new(pattern).map(|re| re.is_match(haystack)).unwrap_or(false)
}

/// The marker comment that opts a statement out of reporting: a block
/// comment holding `pg_no_seqscan_skip`.
pub open spec fn skip_comment_pattern() -> Seq<char> {
    "/\\*.*pg_no_seqscan_skip.*\\*/"@
}

/// Whether the query text carries the skip marker comment.
pub fn is_ignored_query_for_comment(query_string: &str) -> (r: bool)
    ensures
        r == regex_finds(skip_comment_pattern(), query_string@),
{
    regex_is_match("/\\*.*pg_no_seqscan_skip.*\\*/", query_string)
}

} // verus!
