//! The consolidated report: table names in order, and the message text.

use vstd::prelude::*;
use vstd::string::StringExecFns;
use crate::hooks::NoSeqscanHooks;
use crate::text::views_of;

verus! {

/// Strict lexicographic order on texts, by code point (the order of
/// `String`'s comparison).
pub open spec fn text_lt(a: Seq<char>, b: Seq<char>) -> bool
    decreases a.len(),
{
    if a.len() == 0 {
        b.len() > 0
    } else if b.len() == 0 {
        false
    } else if a[0] != b[0] {
        (a[0] as u32) < (b[0] as u32)
    } else {
        text_lt(a.drop_first(), b.drop_first())
    }
}

/// Each text is no greater than the next.
pub open spec fn sorted_texts(s: Seq<Seq<char>>) -> bool {
    forall|i: int| 1 <= i < s.len() ==> !text_lt(#[trigger] s[i], s[i - 1])
}

pub proof fn lemma_text_lt_asymmetric(a: Seq<char>, b: Seq<char>)
    ensures
        text_lt(a, b) ==> !text_lt(b, a),
    decreases a.len(),
{
    if a.len() > 0 && b.len() > 0 && a[0] == b[0] {
        lemma_text_lt_asymmetric(a.drop_first(), b.drop_first());
    }
}

/// Whether `a` comes strictly before `b`.
pub fn text_less(a: &String, b: &String) -> (r: bool)
    ensures
        r == text_lt(a@, b@),
{
    let sa = a.as_str();
    let sb = b.as_str();
    let la = sa.unicode_len();
    let lb = sb.unicode_len();
    let mut i: usize = 0;
    assert(a@.skip(0) =~= a@);
    assert(b@.skip(0) =~= b@);
    while i < la && i < lb && sa.get_char(i) == sb.get_char(i)
        invariant
            la == sa@.len(),
            lb == sb@.len(),
            sa@ == a@,
            sb@ == b@,
            i <= la,
            i <= lb,
            text_lt(a@, b@) == text_lt(a@.skip(i as int), b@.skip(i as int)),
        decreases la - i,
    {
        proof {
            assert(a@.skip(i as int).drop_first() =~= a@.skip(i as int + 1));
            assert(b@.skip(i as int).drop_first() =~= b@.skip(i as int + 1));
        }
        i = i + 1;
    }
    if i == la {
        i < lb
    } else if i == lb {
        false
    } else {
        let ca = sa.get_char(i);
        let cb = sb.get_char(i);
        assert(a@.skip(i as int)[0] == ca);
        assert(b@.skip(i as int)[0] == cb);
        (ca as u32) < (cb as u32)
    }
}

proof fn lemma_views_insert(s: Seq<String>, p: int, x: String)
    requires
        0 <= p <= s.len(),
    ensures
        views_of(s.insert(p, x)) == views_of(s).insert(p, x@),
{
    assert(views_of(s.insert(p, x)) =~= views_of(s).insert(p, x@));
}

/// The same names in lexicographic order.
pub fn sort_texts(v: &Vec<String>) -> (r: Vec<String>)
    ensures
        views_of(r@).to_multiset() == views_of(v@).to_multiset(),
        sorted_texts(views_of(r@)),
{
    let mut out: Vec<String> = Vec::new();
    let mut k: usize = 0;
    assert(views_of(v@.take(0)) =~= Seq::<Seq<char>>::empty());
    assert(views_of(out@) =~= Seq::<Seq<char>>::empty());
    while k < v.len()
        invariant
            k <= v@.len(),
            views_of(out@).to_multiset() == views_of(v@.take(k as int)).to_multiset(),
            sorted_texts(views_of(out@)),
        decreases v@.len() - k,
    {
        let name = v[k].clone();
        let mut p: usize = 0;
        while p < out.len() && !text_less(&name, &out[p])
            invariant
                p <= out@.len(),
                forall|q: int| 0 <= q < p ==> !text_lt(name@, #[trigger] out@[q]@),
            decreases out@.len() - p,
        {
            p = p + 1;
        }
        let ghost s = views_of(out@);
        proof {
            lemma_views_insert(out@, p as int, name);
            if p < out@.len() {
                lemma_text_lt_asymmetric(name@, out@[p as int]@);
            }
            let t = s.insert(p as int, name@);
            assert forall|i: int| 1 <= i < t.len() implies !text_lt(#[trigger] t[i], t[i - 1]) by {
                if i < p {
                    assert(t[i] == s[i] && t[i - 1] == s[i - 1]);
                } else if i == p {
                    assert(t[i] == name@ && t[i - 1] == s[i - 1]);
                    assert(s[i - 1] == out@[i - 1]@);
                } else if i == p + 1 {
                    assert(t[i] == s[i - 1] && t[i - 1] == name@);
                    assert(s[i - 1] == out@[i - 1]@);
                } else {
                    assert(t[i] == s[i - 1] && t[i - 1] == s[i - 2]);
                }
            }
            assert(v@.take(k as int + 1) =~= v@.take(k as int).push(v@[k as int]));
            assert(views_of(v@.take(k as int + 1)) =~= views_of(v@.take(k as int)).push(
                name@,
            ));
        }
        out.insert(p, name);
        proof {
            assert(views_of(out@) == s.insert(p as int, name@));
            vstd::seq_lib::to_multiset_insert(s, p as int, name@);
            let before = views_of(v@.take(k as int));
            vstd::seq_lib::to_multiset_build(before, name@);
            assert(before.push(name@).to_multiset() == before.to_multiset().insert(name@));
        }
        k = k + 1;
    }
    assert(v@.take(k as int) =~= v@);
    out
}

/// The texts of `s`, one per line.
pub open spec fn join_lines(s: Seq<Seq<char>>) -> Seq<char>
    decreases s.len(),
{
    if s.len() == 0 {
        Seq::empty()
    } else if s.len() == 1 {
        s[0]
    } else {
        join_lines(s.drop_last()) + "\n"@ + s.last()
    }
}

/// The report on a statement: the tables involved, one per line, the query
/// text and the plan's explanation.
pub open spec fn report_text(tables: Seq<Seq<char>>, query: Seq<char>, plan: Seq<char>) -> Seq<
    char,
> {
    "A 'Sequential Scan' has been detected. Make sure the query is compatible with the existing indexes.\n  - Tables involved: "@
        + join_lines(tables) + "\n  - Query: "@ + query + "\n  - Query plan:\n\n  "@ + plan
        + "\n"@
}

/// The texts of `tables`, one per line.
pub fn join_names(tables: &Vec<String>) -> (r: String)
    ensures
        r@ == join_lines(views_of(tables@)),
{
    let mut out = String::new();
    let mut i: usize = 0;
    assert(views_of(tables@.take(0)) =~= Seq::<Seq<char>>::empty());
    while i < tables.len()
        invariant
            i <= tables@.len(),
            out@ == join_lines(views_of(tables@.take(i as int))),
        decreases tables@.len() - i,
    {
        let ghost before = views_of(tables@.take(i as int));
        assert(views_of(tables@.take(i as int + 1)) =~= before.push(tables@[i as int]@));
        assert(before.push(tables@[i as int]@).drop_last() =~= before);
        if i > 0 {
            out.append("\n");
        } else {
            assert(before.push(tables@[0]@) =~= seq![tables@[0]@]);
        }
        out.append(tables[i].as_str());
        i = i + 1;
    }
    assert(tables@.take(i as int) =~= tables@);
    out
}

/// The report on a statement whose scans of `tables` were found.
pub fn report_message(tables: &Vec<String>, query_string: &str, explain_output: &str) -> (r:
    String)
    ensures
        r@ == report_text(views_of(tables@), query_string@, explain_output@),
{
    let mut message = String::from_str(
        "A 'Sequential Scan' has been detected. Make sure the query is compatible with the existing indexes.\n  - Tables involved: ",
    );
    message.append(join_names(tables).as_str());
    message.append("\n  - Query: ");
    message.append(query_string);
    message.append("\n  - Query plan:\n\n  ");
    message.append(explain_output);
    message.append("\n");
    message
}

impl NoSeqscanHooks {
    /// The tables found, in lexicographic order.
    pub fn sorted_tables(&self) -> (r: Vec<String>)
        ensures
            views_of(r@).to_multiset() == views_of(self.tables_in_seqscans@).to_multiset(),
            sorted_texts(views_of(r@)),
    {
        sort_texts(&self.tables_in_seqscans)
    }
}

} // verus!
