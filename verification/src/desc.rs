//! Multi-line descriptions: joining the raw lines of a `desc:` block into
//! markdown paragraphs.
use vstd::prelude::*;
use crate::text::{from_chars, to_chars};

verus! {

/// `parts` joined with `sep` between neighbours (`[T]::join`).
pub open spec fn join(parts: Seq<Seq<char>>, sep: Seq<char>) -> Seq<char>
    decreases parts.len(),
{
    if parts.len() == 0 {
        seq![]
    } else if parts.len() == 1 {
        parts[0]
    } else {
        join(parts.drop_last(), sep) + sep + parts.last()
    }
}

/// A single line break.
pub open spec fn line_break() -> Seq<char> {
    seq!['\n']
}

/// A blank line between paragraphs.
pub open spec fn paragraph_break() -> Seq<char> {
    seq!['\n', '\n']
}

/// The paragraphs of `raw`, given the paragraphs `done` already closed and the lines
/// `cur` of the paragraph being read: a paragraph is a maximal run of non-empty
/// lines, its lines joined by a line break; empty lines only separate paragraphs.
pub open spec fn paragraphs(raw: Seq<Seq<char>>, done: Seq<Seq<char>>, cur: Seq<Seq<char>>) -> Seq<
    Seq<char>,
>
    decreases raw.len(),
{
    if raw.len() == 0 {
        if cur.len() > 0 {
            done.push(join(cur, line_break()))
        } else {
            done
        }
    } else if raw[0].len() == 0 {
        if cur.len() > 0 {
            paragraphs(raw.drop_first(), done.push(join(cur, line_break())), seq![])
        } else {
            paragraphs(raw.drop_first(), done, cur)
        }
    } else {
        paragraphs(raw.drop_first(), done, cur.push(raw[0]))
    }
}

/// The markdown of a description block: its paragraphs separated by a blank line.
pub open spec fn join_desc(raw: Seq<Seq<char>>) -> Seq<char> {
    join(paragraphs(raw, seq![], seq![]), paragraph_break())
}

/// The views of a vector of strings.
pub open spec fn strings_view(v: Seq<String>) -> Seq<Seq<char>> {
    v.map_values(|s: String| s@)
}

/// The views of a vector of character vectors.
pub open spec fn chars_view(v: Seq<Vec<char>>) -> Seq<Seq<char>> {
    v.map_values(|s: Vec<char>| s@)
}

/// `parts` joined with `sep`.
pub fn join_chars(parts: &Vec<Vec<char>>, sep: &[char]) -> (r: Vec<char>)
    ensures
        r@ == join(chars_view(parts@), sep@),
{
    let n = parts.len();
    let mut r: Vec<char> = Vec::new();
    let mut i: usize = 0;
    while i < n
        invariant
            i <= n == parts@.len(),
            r@ == join(chars_view(parts@).take(i as int), sep@),
        decreases n - i,
    {
        let ghost prev = chars_view(parts@).take(i as int);
        assert(chars_view(parts@).take(i + 1).drop_last() =~= prev);
        if i > 0 {
            r.extend_from_slice(sep);
        }
        r.extend_from_slice(parts[i].as_slice());
        i = i + 1;
    }
    assert(chars_view(parts@).take(n as int) =~= chars_view(parts@));
    r
}

/// Joins a description block's raw lines into markdown: neighbouring non-empty
/// lines are joined by a line break, and an empty line between them starts a new
/// paragraph, paragraphs being separated by a blank line. Leading, trailing and
/// repeated empty lines are dropped.
pub fn join_desc_block(raw: Vec<String>) -> (r: String)
    ensures
        r@ == join_desc(strings_view(raw@)),
{
    let n = raw.len();
    let ghost all = strings_view(raw@);
    let mut done: Vec<Vec<char>> = Vec::new();
    let mut cur: Vec<Vec<char>> = Vec::new();
    let nl: Vec<char> = vec!['\n'];
    let nlnl: Vec<char> = vec!['\n', '\n'];
    let mut i: usize = 0;
    assert(all.skip(0) =~= all);
    assert(chars_view(cur@) =~= Seq::<Seq<char>>::empty());
    while i < n
        invariant
            i <= n == raw@.len(),
            all == strings_view(raw@),
            nl@ == line_break(),
            paragraphs(all.skip(i as int), chars_view(done@), chars_view(cur@)) == paragraphs(
                all,
                seq![],
                seq![],
            ),
        decreases n - i,
    {
        let line = to_chars(raw[i].as_str());
        assert(all.skip(i as int).drop_first() =~= all.skip(i + 1));
        if line.len() == 0 {
            if cur.len() > 0 {
                let p = join_chars(&cur, nl.as_slice());
                let ghost prev = chars_view(done@);
                done.push(p);
                assert(chars_view(done@) =~= prev.push(p@));
                cur = Vec::new();
                assert(chars_view(cur@) =~= Seq::<Seq<char>>::empty());
            }
        } else {
            let ghost prev = chars_view(cur@);
            cur.push(line);
            assert(chars_view(cur@) =~= prev.push(line@));
        }
        i = i + 1;
    }
    if cur.len() > 0 {
        let p = join_chars(&cur, nl.as_slice());
        let ghost prev = chars_view(done@);
        done.push(p);
        assert(chars_view(done@) =~= prev.push(p@));
    }
    let joined = join_chars(&done, nlnl.as_slice());
    from_chars(joined.as_slice())
}

proof fn lemma_paragraphs_trailing_blank(raw: Seq<Seq<char>>, done: Seq<Seq<char>>, cur: Seq<Seq<char>>)
    ensures
        paragraphs(raw.push(seq![]), done, cur) == paragraphs(raw, done, cur),
    decreases raw.len(),
{
    let e: Seq<char> = seq![];
    if raw.len() == 0 {
        assert(raw.push(e).drop_first() =~= raw);
        if cur.len() > 0 {
            let d2 = done.push(join(cur, line_break()));
            assert(paragraphs(raw.push(e), done, cur) == paragraphs(raw, d2, seq![]));
        }
    } else {
        assert(raw.push(e).drop_first() =~= raw.drop_first().push(e));
        if raw[0].len() == 0 {
            if cur.len() > 0 {
                lemma_paragraphs_trailing_blank(raw.drop_first(), done.push(join(cur, line_break())), seq![]);
            } else {
                lemma_paragraphs_trailing_blank(raw.drop_first(), done, cur);
            }
        } else {
            lemma_paragraphs_trailing_blank(raw.drop_first(), done, cur.push(raw[0]));
        }
    }
}

proof fn lemma_paragraphs_double_blank(
    a: Seq<Seq<char>>,
    b: Seq<Seq<char>>,
    done: Seq<Seq<char>>,
    cur: Seq<Seq<char>>,
)
    ensures
        paragraphs(a + seq![seq![], seq![]] + b, done, cur) == paragraphs(a + seq![seq![]] + b, done, cur),
    decreases a.len(),
{
    let e: Seq<char> = seq![];
    let x = a + seq![e, e] + b;
    let y = a + seq![e] + b;
    if a.len() == 0 {
        assert(x.drop_first() =~= y);
        assert(y.drop_first() =~= b);
        if cur.len() > 0 {
            let d2 = done.push(join(cur, line_break()));
            assert(paragraphs(y, d2, seq![]) == paragraphs(b, d2, seq![]));
        }
    } else {
        assert(x.drop_first() =~= a.drop_first() + seq![e, e] + b);
        assert(y.drop_first() =~= a.drop_first() + seq![e] + b);
        if a[0].len() == 0 {
            if cur.len() > 0 {
                lemma_paragraphs_double_blank(a.drop_first(), b, done.push(join(cur, line_break())), seq![]);
            } else {
                lemma_paragraphs_double_blank(a.drop_first(), b, done, cur);
            }
        } else {
            lemma_paragraphs_double_blank(a.drop_first(), b, done, cur.push(a[0]));
        }
    }
}

/// An empty line before a description block changes nothing.
pub proof fn law_join_desc_leading_blank(raw: Seq<Seq<char>>)
    ensures
        join_desc(seq![seq![]] + raw) == join_desc(raw),
{
    let e: Seq<char> = seq![];
    assert((seq![e] + raw).drop_first() =~= raw);
}

/// An empty line after a description block changes nothing.
pub proof fn law_join_desc_trailing_blank(raw: Seq<Seq<char>>)
    ensures
        join_desc(raw.push(seq![])) == join_desc(raw),
{
    lemma_paragraphs_trailing_blank(raw, seq![], seq![]);
}

/// A run of empty lines separates paragraphs as one empty line does.
pub proof fn law_join_desc_blank_run(a: Seq<Seq<char>>, b: Seq<Seq<char>>)
    ensures
        join_desc(a + seq![seq![], seq![]] + b) == join_desc(a + seq![seq![]] + b),
{
    lemma_paragraphs_double_blank(a, b, seq![], seq![]);
}

proof fn lemma_paragraphs_no_blank(raw: Seq<Seq<char>>, cur: Seq<Seq<char>>)
    requires
        forall|i: int| 0 <= i < raw.len() ==> (#[trigger] raw[i]).len() > 0,
        cur.len() + raw.len() > 0,
    ensures
        paragraphs(raw, seq![], cur) == seq![join(cur + raw, line_break())],
    decreases raw.len(),
{
    if raw.len() == 0 {
    } else {
        assert(cur.push(raw[0]) + raw.drop_first() =~= cur + raw);
        lemma_paragraphs_no_blank(raw.drop_first(), cur.push(raw[0]));
    }
}

/// A block without empty lines is one paragraph: its lines joined by line breaks.
pub proof fn law_join_desc_single_paragraph(raw: Seq<Seq<char>>)
    requires
        raw.len() > 0,
        forall|i: int| 0 <= i < raw.len() ==> (#[trigger] raw[i]).len() > 0,
    ensures
        join_desc(raw) == join(raw, line_break()),
{
    lemma_paragraphs_no_blank(raw, seq![]);
}


proof fn lemma_join_ends_with_last(parts: Seq<Seq<char>>, sep: Seq<char>)
    requires
        parts.len() > 0,
    ensures
        join(parts, sep).len() >= parts.last().len(),
{
}

proof fn lemma_paragraphs_nonempty(raw: Seq<Seq<char>>, done: Seq<Seq<char>>, cur: Seq<Seq<char>>)
    requires
        forall|i: int| 0 <= i < done.len() ==> (#[trigger] done[i]).len() > 0,
        forall|i: int| 0 <= i < cur.len() ==> (#[trigger] cur[i]).len() > 0,
    ensures
        forall|i: int|
            0 <= i < paragraphs(raw, done, cur).len() ==> (#[trigger] paragraphs(raw, done, cur)[i]).len()
                > 0,
        paragraphs(raw, done, cur).len() == 0 <==> (done.len() == 0 && cur.len() == 0 && forall|i: int|
            0 <= i < raw.len() ==> (#[trigger] raw[i]).len() == 0),
    decreases raw.len(),
{
    if cur.len() > 0 {
        lemma_join_ends_with_last(cur, line_break());
    }
    if raw.len() > 0 {
        let rest = raw.drop_first();
        if raw[0].len() == 0 {
            if cur.len() > 0 {
                lemma_paragraphs_nonempty(rest, done.push(join(cur, line_break())), seq![]);
            } else {
                lemma_paragraphs_nonempty(rest, done, cur);
                assert forall|i: int| 0 <= i < rest.len() && (#[trigger] rest[i]).len() == 0 implies raw[i
                    + 1].len() == 0 by {}
                if forall|i: int| 0 <= i < rest.len() ==> (#[trigger] rest[i]).len() == 0 {
                    assert forall|i: int| 0 <= i < raw.len() implies (#[trigger] raw[i]).len() == 0 by {
                        if i > 0 {
                            assert(raw[i] == rest[i - 1]);
                        }
                    }
                }
            }
        } else {
            lemma_paragraphs_nonempty(rest, done, cur.push(raw[0]));
        }
    }
}

/// A description block gives empty markdown exactly when every one of its lines
/// is empty.
pub proof fn law_join_desc_empty_iff_all_blank(raw: Seq<Seq<char>>)
    ensures
        join_desc(raw).len() == 0 <==> forall|i: int| 0 <= i < raw.len() ==> (#[trigger] raw[i]).len() == 0,
{
    let ps = paragraphs(raw, seq![], seq![]);
    lemma_paragraphs_nonempty(raw, seq![], seq![]);
    if ps.len() > 0 {
        lemma_join_ends_with_last(ps, paragraph_break());
    }
}


proof fn lemma_paragraphs_done_prefix(raw: Seq<Seq<char>>, done: Seq<Seq<char>>, cur: Seq<Seq<char>>)
    ensures
        paragraphs(raw, done, cur) == done + paragraphs(raw, seq![], cur),
    decreases raw.len(),
{
    let e: Seq<Seq<char>> = seq![];
    if raw.len() == 0 {
        if cur.len() > 0 {
            assert(done.push(join(cur, line_break())) =~= done + e.push(join(cur, line_break())));
        } else {
            assert(done =~= done + e);
        }
    } else if raw[0].len() == 0 {
        if cur.len() > 0 {
            let j = join(cur, line_break());
            lemma_paragraphs_done_prefix(raw.drop_first(), done.push(j), seq![]);
            lemma_paragraphs_done_prefix(raw.drop_first(), e.push(j), seq![]);
            assert(done.push(j) =~= done + e.push(j));
            assert(done + (e.push(j) + paragraphs(raw.drop_first(), e, seq![])) =~= done.push(j)
                + paragraphs(raw.drop_first(), e, seq![]));
        } else {
            lemma_paragraphs_done_prefix(raw.drop_first(), done, cur);
        }
    } else {
        lemma_paragraphs_done_prefix(raw.drop_first(), done, cur.push(raw[0]));
    }
}

proof fn lemma_paragraphs_split(
    a: Seq<Seq<char>>,
    b: Seq<Seq<char>>,
    done: Seq<Seq<char>>,
    cur: Seq<Seq<char>>,
)
    ensures
        paragraphs(a + seq![seq![]] + b, done, cur) == paragraphs(b, paragraphs(a, done, cur), seq![]),
    decreases a.len(),
{
    let e: Seq<char> = seq![];
    let x = a + seq![e] + b;
    if a.len() == 0 {
        assert(x =~= seq![e] + b);
        assert(x.drop_first() =~= b);
        assert(x[0] == e);
        if cur.len() > 0 {
            let d2 = done.push(join(cur, line_break()));
            assert(paragraphs(x, done, cur) == paragraphs(b, d2, seq![]));
        } else {
            assert(cur =~= Seq::<Seq<char>>::empty());
            assert(paragraphs(x, done, cur) == paragraphs(b, done, cur));
        }
    } else {
        assert(x.drop_first() =~= a.drop_first() + seq![e] + b);
        assert(x[0] == a[0]);
        if a[0].len() == 0 {
            if cur.len() > 0 {
                lemma_paragraphs_split(a.drop_first(), b, done.push(join(cur, line_break())), seq![]);
            } else {
                lemma_paragraphs_split(a.drop_first(), b, done, cur);
            }
        } else {
            lemma_paragraphs_split(a.drop_first(), b, done, cur.push(a[0]));
        }
    }
}

proof fn lemma_join_concat(p: Seq<Seq<char>>, q: Seq<Seq<char>>, sep: Seq<char>)
    requires
        p.len() > 0,
        q.len() > 0,
    ensures
        join(p + q, sep) == join(p, sep) + sep + join(q, sep),
    decreases q.len(),
{
    if q.len() == 1 {
        assert((p + q).drop_last() =~= p);
        assert((p + q).last() == q[0]);
    } else {
        lemma_join_concat(p, q.drop_last(), sep);
        assert((p + q).drop_last() =~= p + q.drop_last());
        assert((p + q).last() == q.last());
        assert(join(p + q, sep) =~= join(p, sep) + sep + join(q, sep));
    }
}

/// Splitting a description at an empty line between two parts that each hold a
/// non-empty line gives the markdown of the first part, a blank line, then the
/// markdown of the second: no paragraph is lost, moved or merged.
pub proof fn law_join_desc_splits_at_blank_line(a: Seq<Seq<char>>, b: Seq<Seq<char>>)
    requires
        exists|i: int| 0 <= i < a.len() && (#[trigger] a[i]).len() > 0,
        exists|i: int| 0 <= i < b.len() && (#[trigger] b[i]).len() > 0,
    ensures
        join_desc(a + seq![seq![]] + b) == join_desc(a) + paragraph_break() + join_desc(b),
{
    let e: Seq<Seq<char>> = seq![];
    let pa = paragraphs(a, e, e);
    let pb = paragraphs(b, e, e);
    lemma_paragraphs_nonempty(a, e, e);
    lemma_paragraphs_nonempty(b, e, e);
    lemma_paragraphs_split(a, b, e, e);
    lemma_paragraphs_done_prefix(b, pa, e);
    lemma_join_concat(pa, pb, paragraph_break());
}

} // verus!
