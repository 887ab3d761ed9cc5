//! Timeline entries and the parts of a card line: tags and images.
use vstd::prelude::*;
use crate::desc::{chars_view, strings_view};
use crate::text::{
    find_char, find_from, from_chars, slice_to_vec, split_char, split_on, to_chars, trim, trim_bounds,
    trimmed,
};

verus! {

/// One entry of a timeline: its label and the fields of its card.
pub struct TimelineEntry {
    pub label: String,
    pub title: Option<String>,
    pub company: Option<String>,
    pub location: Option<String>,
    pub desc: Option<String>,
    pub tags: Vec<String>,
    pub active: bool,
    /// `(url, alt)` of each image, in order.
    pub images: Vec<(String, String)>,
}

/// The value of a timeline entry.
pub struct EntryModel {
    pub label: Seq<char>,
    pub title: Option<Seq<char>>,
    pub company: Option<Seq<char>>,
    pub location: Option<Seq<char>>,
    pub desc: Option<Seq<char>>,
    pub tags: Seq<Seq<char>>,
    pub active: bool,
    pub images: Seq<(Seq<char>, Seq<char>)>,
}

/// The view of an optional string.
pub open spec fn opt_view(o: Option<String>) -> Option<Seq<char>> {
    match o {
        Some(s) => Some(s@),
        None => None,
    }
}

/// The views of a list of string pairs.
pub open spec fn pairs_view(v: Seq<(String, String)>) -> Seq<(Seq<char>, Seq<char>)> {
    v.map_values(|p: (String, String)| (p.0@, p.1@))
}

impl View for TimelineEntry {
    type V = EntryModel;

    open spec fn view(&self) -> EntryModel {
        EntryModel {
            label: self.label@,
            title: opt_view(self.title),
            company: opt_view(self.company),
            location: opt_view(self.location),
            desc: opt_view(self.desc),
            tags: strings_view(self.tags@),
            active: self.active,
            images: pairs_view(self.images@),
        }
    }
}

/// The views of a list of entries.
pub open spec fn entries_view(v: Seq<TimelineEntry>) -> Seq<EntryModel> {
    v.map_values(|e: TimelineEntry| e@)
}

/// An entry with its label and no field set.
pub open spec fn empty_entry(label: Seq<char>) -> EntryModel {
    EntryModel {
        label: label,
        title: None,
        company: None,
        location: None,
        desc: None,
        tags: seq![],
        active: false,
        images: seq![],
    }
}

/// The trimmed, non-empty pieces among `pieces`, in order.
pub open spec fn clean_tags(pieces: Seq<Seq<char>>) -> Seq<Seq<char>>
    decreases pieces.len(),
{
    if pieces.len() == 0 {
        seq![]
    } else {
        let rest = clean_tags(pieces.drop_last());
        let t = trim(pieces.last());
        if t.len() > 0 {
            rest.push(t)
        } else {
            rest
        }
    }
}

/// The tags of a `tags:` value: its `|`-separated pieces, trimmed, empty ones left out.
pub open spec fn tag_list(val: Seq<char>) -> Seq<Seq<char>> {
    clean_tags(split_on(val, '|'))
}

proof fn lemma_clean_tags_concat(xs: Seq<Seq<char>>, ys: Seq<Seq<char>>)
    ensures
        clean_tags(xs + ys) == clean_tags(xs) + clean_tags(ys),
    decreases ys.len(),
{
    if ys.len() == 0 {
        assert(xs + ys =~= xs);
        assert(clean_tags(xs) + Seq::<Seq<char>>::empty() =~= clean_tags(xs));
    } else {
        lemma_clean_tags_concat(xs, ys.drop_last());
        assert((xs + ys).drop_last() =~= xs + ys.drop_last());
        assert((xs + ys).last() == ys.last());
        let t = trim(ys.last());
        if t.len() > 0 {
            assert(clean_tags(xs) + clean_tags(ys.drop_last()).push(t) =~= (clean_tags(xs)
                + clean_tags(ys.drop_last())).push(t));
        }
    }
}

/// Tags are the `|`-separated pieces of the value, trimmed, empty ones left
/// out, in the order written: the tags of `a|b` are those of `a` followed by
/// those of `b`, and a piece without `|` gives itself trimmed, or nothing when
/// it is blank.
pub proof fn law_tags_split_at_pipe(a: Seq<char>, b: Seq<char>)
    ensures
        tag_list(a + seq!['|'] + b) == tag_list(a) + tag_list(b),
        (forall|k: int| 0 <= k < a.len() ==> a[k] != '|') ==> tag_list(a) == (if trim(a).len() > 0 {
            seq![trim(a)]
        } else {
            seq![]
        }),
{
    crate::text::lemma_split_on_concat(a, b, '|');
    lemma_clean_tags_concat(split_on(a, '|'), split_on(b, '|'));
    if forall|k: int| 0 <= k < a.len() ==> a[k] != '|' {
        assert(Seq::<char>::empty() + a.skip(0) =~= a);
        crate::text::lemma_split_on_single(a, '|', 0, seq![]);
        assert(seq![a].drop_last() =~= Seq::<Seq<char>>::empty());
        assert(seq![a].last() == a);
        assert(clean_tags(Seq::<Seq<char>>::empty()) == Seq::<Seq<char>>::empty());
        if trim(a).len() > 0 {
            assert(Seq::<Seq<char>>::empty().push(trim(a)) =~= seq![trim(a)]);
        }
    }
}

/// The tags of a `tags:` value.
pub fn parse_tags(val: &[char]) -> (r: Vec<String>)
    ensures
        strings_view(r@) == tag_list(val@),
{
    let pieces = split_char(val, '|');
    let ghost ps = chars_view(pieces@);
    let n = pieces.len();
    let mut tags: Vec<String> = Vec::new();
    let mut i: usize = 0;
    while i < n
        invariant
            i <= n == pieces@.len(),
            ps == chars_view(pieces@),
            ps == split_on(val@, '|'),
            strings_view(tags@) == clean_tags(ps.take(i as int)),
        decreases n - i,
    {
        let (lo, hi) = trim_bounds(pieces[i].as_slice());
        assert(ps.take(i + 1).drop_last() =~= ps.take(i as int));
        if lo < hi {
            let t = slice_to_vec(pieces[i].as_slice(), lo, hi);
            let ts = from_chars(t.as_slice());
            tags.push(ts);
        }
        i = i + 1;
    }
    assert(ps.take(n as int) =~= ps);
    tags
}

/// A markdown image `![alt](url)` begins at position `i` of `s`; gives the
/// positions of its `]` and its closing `)`. The alt text holds no `]`, and the
/// url is not empty and holds no `)`.
pub open spec fn image_at(s: Seq<char>, i: int) -> Option<(int, int)> {
    if 0 <= i && i + 1 < s.len() && s[i] == '!' && s[i + 1] == '[' {
        match find_from(s, seq![']'], i + 2) {
            Some(j) => if j + 1 < s.len() && s[j + 1] == '(' {
                match find_from(s, seq![')'], j + 2) {
                    Some(k) => if k > j + 2 {
                        Some((j, k))
                    } else {
                        None
                    },
                    None => None,
                }
            } else {
                None
            },
            None => None,
        }
    } else {
        None
    }
}

/// An image found at `i` lies after `i` and within `s`, with a non-empty url.
pub proof fn lemma_image_at(s: Seq<char>, i: int)
    ensures
        match image_at(s, i) {
            Some((j, k)) => i + 2 <= j && j + 2 < k < s.len(),
            None => true,
        },
{
    if image_at(s, i) is None {
        return;
    }
    crate::text::lemma_find_from(s, seq![']'], i + 2);
    let j = find_from(s, seq![']'], i + 2)->0;
    crate::text::lemma_find_from(s, seq![')'], j + 2);
}

/// The images of `s` from position `i` on, as `(url, alt)` pairs, each trimmed,
/// found left to right without overlapping.
pub open spec fn images_from(s: Seq<char>, i: int) -> Seq<(Seq<char>, Seq<char>)>
    decreases s.len() - i,
{
    if i < 0 || i >= s.len() {
        seq![]
    } else {
        match image_at(s, i) {
            Some((j, k)) => {
                proof {
                    lemma_image_at(s, i);
                }
                seq![(trim(s.subrange(j + 2, k)), trim(s.subrange(i + 2, j)))] + images_from(s, k + 1)
            },
            None => images_from(s, i + 1),
        }
    }
}

/// The image that begins at position `i` of `s`, if one does.
fn image_at_exec(s: &[char], i: usize) -> (r: Option<(usize, usize)>)
    ensures
        match r {
            Some((j, k)) => image_at(s@, i as int) == Some((j as int, k as int)),
            None => image_at(s@, i as int) is None,
        },
{
    let n = s.len();
    if !(i < n && n - i > 1 && s[i] == '!' && s[i + 1] == '[') {
        return None;
    }
    match find_char(s, ']', i + 2) {
        None => None,
        Some(j) => {
            proof {
                crate::text::lemma_find_from(s@, seq![']'], i + 2);
            }
            if j + 1 < n && s[j + 1] == '(' {
                match find_char(s, ')', j + 2) {
                    None => None,
                    Some(k) => {
                        if k > j + 2 {
                            Some((j, k))
                        } else {
                            None
                        }
                    },
                }
            } else {
                None
            }
        },
    }
}

/// The images of a card line, as `(url, alt)` pairs.
pub fn parse_images(s: &[char]) -> (r: Vec<(String, String)>)
    ensures
        pairs_view(r@) == images_from(s@, 0),
{
    let n = s.len();
    let mut out: Vec<(String, String)> = Vec::new();
    let mut i: usize = 0;
    while i < n
        invariant
            i <= n == s@.len(),
            pairs_view(out@) + images_from(s@, i as int) == images_from(s@, 0),
        decreases n - i,
    {
        match image_at_exec(s, i) {
            Some((j, k)) => {
                proof {
                    lemma_image_at(s@, i as int);
                }
                let ghost prev = pairs_view(out@);
                let u = from_chars(trimmed(slice_to_vec(s, j + 2, k).as_slice()).as_slice());
                let a = from_chars(trimmed(slice_to_vec(s, i + 2, j).as_slice()).as_slice());
                out.push((u, a));
                assert(prev.push((u@, a@)) + images_from(s@, k + 1) =~= prev + (seq![(u@, a@)]
                    + images_from(s@, k + 1)));
                i = k + 1;
            },
            None => {
                i = i + 1;
            },
        }
    }
    out
}

/// `s` trimmed.
pub fn trimmed_string(s: &String) -> (r: String)
    ensures
        r@ == trim(s@),
{
    let v = to_chars(s.as_str());
    from_chars(trimmed(v.as_slice()).as_slice())
}

} // verus!
