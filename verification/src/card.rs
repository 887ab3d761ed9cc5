//! Parsing the timeline grammar: entries (`{{label}}…{{/label}}` then
//! `{{card-start}}…{{card-end}}`) and the `key: value` lines of a card.
use vstd::prelude::*;
use crate::desc::{chars_view, join_desc, join_desc_block, strings_view};
use crate::entry::{
    clean_tags, empty_entry, entries_view, images_from, pairs_view, parse_images, parse_tags,
    tag_list, EntryModel, TimelineEntry,
};
use crate::text::{
    chars_eq_ignore_ascii_case, eq_ignore_ascii_case, find, find_char, find_from, from_chars,
    lead_ws, lines, slice_to_vec, split_lines, str_eq, to_chars, to_lowercase, trim, trim_bounds,
    trimmed, unicode_lowercase,
};

verus! {

/// The title marker that begins a title line.
pub open spec fn title_marker() -> Seq<char> {
    seq!['#', '#', '#', '#', ' ']
}

/// `s` begins with `p`.
pub open spec fn starts_with(s: Seq<char>, p: Seq<char>) -> bool {
    p.len() <= s.len() && s.take(p.len() as int) == p
}

/// The end of the continuation lines of a `desc:` line indented by `base`: lines
/// from `j` on that are blank or indented further than `base`.
pub open spec fn desc_end(lines: Seq<Seq<char>>, j: int, base: nat) -> int
    decreases lines.len() - j,
{
    if j < 0 || j >= lines.len() {
        j
    } else if trim(lines[j]).len() == 0 || lead_ws(lines[j]) > base {
        desc_end(lines, j + 1, base)
    } else {
        j
    }
}

/// A description block ends at or after the line where it may begin, within the card.
pub proof fn lemma_desc_end(lines: Seq<Seq<char>>, j: int, base: nat)
    requires
        0 <= j,
    ensures
        j <= desc_end(lines, j, base),
        j <= lines.len() ==> desc_end(lines, j, base) <= lines.len(),
    decreases lines.len() - j,
{
    if j < lines.len() && (trim(lines[j]).len() == 0 || lead_ws(lines[j]) > base) {
        lemma_desc_end(lines, j + 1, base);
    }
}

/// The raw lines of a description: the value on the `desc:` line when it is not
/// empty, then each continuation line `i + 1 .. j` trimmed (blank ones empty).
pub open spec fn desc_lines(val: Seq<char>, lines: Seq<Seq<char>>, i: int, j: int) -> Seq<Seq<char>> {
    let first: Seq<Seq<char>> = if val.len() > 0 {
        seq![val]
    } else {
        seq![]
    };
    first + lines.subrange(i + 1, j).map_values(|l: Seq<char>| trim(l))
}

/// The effect of a `key: value` line other than a description.
pub open spec fn apply_field(e: EntryModel, key: Seq<char>, val: Seq<char>) -> EntryModel {
    if key == "company"@ {
        EntryModel { company: Some(val), ..e }
    } else if key == "location"@ {
        EntryModel { location: Some(val), ..e }
    } else if key == "active"@ {
        EntryModel { active: eq_ignore_ascii_case(val, "true"@), ..e }
    } else if key == "tags"@ {
        EntryModel { tags: tag_list(val), ..e }
    } else {
        e
    }
}

/// The key of a card line whose first `:` is at `c`: the text before it, trimmed
/// and lower-cased.
pub open spec fn key_of(t: Seq<char>, c: int) -> Seq<char> {
    unicode_lowercase(trim(t.take(c)))
}

/// The value of a card line whose first `:` is at `c`: the text after it, trimmed.
pub open spec fn value_of(t: Seq<char>, c: int) -> Seq<char> {
    trim(t.skip(c + 1))
}

/// Reading the card lines from `i` on into `e`. A blank line is skipped. A line
/// starting `#### ` sets the title. Any other line adds the images it holds and,
/// when it has a `:`, sets the field its key names; a `desc` or `description`
/// key also takes the continuation lines that follow it.
pub open spec fn card_fold(lines: Seq<Seq<char>>, i: int, e: EntryModel) -> EntryModel
    decreases lines.len() - i,
{
    if i < 0 || i >= lines.len() {
        e
    } else {
        let line = lines[i];
        let t = trim(line);
        if t.len() == 0 {
            card_fold(lines, i + 1, e)
        } else if starts_with(t, title_marker()) {
            card_fold(lines, i + 1, EntryModel { title: Some(trim(t.skip(5))), ..e })
        } else {
            let e1 = EntryModel { images: e.images + images_from(t, 0), ..e };
            match find_from(t, seq![':'], 0) {
                None => card_fold(lines, i + 1, e1),
                Some(c) => {
                    let key = key_of(t, c);
                    let val = value_of(t, c);
                    if key == "desc"@ || key == "description"@ {
                        let j = desc_end(lines, i + 1, lead_ws(line));
                        proof {
                            lemma_desc_end(lines, i + 1, lead_ws(line));
                        }
                        card_fold(
                            lines,
                            j,
                            EntryModel { desc: Some(join_desc(desc_lines(val, lines, i, j))), ..e1 },
                        )
                    } else {
                        card_fold(lines, i + 1, apply_field(e1, key, val))
                    }
                },
            }
        }
    }
}

/// The entry that a card gives: its lines read in order into an entry with only
/// the label set.
pub open spec fn card_model(label: Seq<char>, card: Seq<char>) -> EntryModel {
    card_fold(lines(card), 0, empty_entry(label))
}

/// Number of leading whitespace characters in a line.
pub fn indentation_of(line: &str) -> (r: usize)
    ensures
        r == lead_ws(line@),
{
    let v = to_chars(line);
    let (lo, _hi) = trim_bounds(v.as_slice());
    lo
}

fn title_marker_chars() -> (r: Vec<char>)
    ensures
        r@ == title_marker(),
{
    vec!['#', '#', '#', '#', ' ']
}

fn starts_with_title(t: &[char]) -> (r: bool)
    ensures
        r == starts_with(t@, title_marker()),
{
    let m = title_marker_chars();
    if t.len() < 5 {
        return false;
    }
    let pre = slice_to_vec(t, 0, 5);
    crate::text::chars_eq(pre.as_slice(), m.as_slice())
}

/// Whether `s` holds no character but whitespace.
fn is_blank(s: &[char]) -> (r: bool)
    ensures
        r == (trim(s@).len() == 0),
{
    let (lo, hi) = trim_bounds(s);
    lo == hi
}

fn opt_string(v: &[char]) -> (r: Option<String>)
    ensures
        r matches Some(s) && s@ == v@,
{
    Some(from_chars(v))
}

/// Whether a lower-cased key names the description.
pub fn is_desc_key(key: &str) -> (r: bool)
    ensures
        r == (key@ == "desc"@ || key@ == "description"@),
{
    str_eq(key, "desc") || str_eq(key, "description")
}

/// Sets the field that a lower-cased key other than the description names:
/// `company`, `location`, `active` (on for `true` in any ASCII case) or `tags`;
/// other keys change nothing.
pub fn set_field(e: &mut TimelineEntry, key: &str, val: &[char])
    ensures
        final(e)@ == apply_field(old(e)@, key@, val@),
{
    if str_eq(key, "company") {
        e.company = opt_string(val);
    } else if str_eq(key, "location") {
        e.location = opt_string(val);
    } else if str_eq(key, "active") {
        let word = to_chars("true");
        e.active = chars_eq_ignore_ascii_case(val, word.as_slice());
    } else if str_eq(key, "tags") {
        e.tags = parse_tags(val);
    }
}

/// The end of the continuation lines of the `desc:` line `i`, indented by `base`.
fn desc_block_end(lns: &Vec<Vec<char>>, i: usize, base: usize) -> (j: usize)
    requires
        i < lns@.len(),
    ensures
        j as int == desc_end(chars_view(lns@), i + 1, base as nat),
        i < j <= lns@.len(),
{
    let ghost ls = chars_view(lns@);
    let n = lns.len();
    let mut j = i + 1;
    while j < n && (is_blank(lns[j].as_slice()) || indentation_of(from_chars(lns[j].as_slice()).as_str())
        > base)
        invariant
            i < j <= n == lns@.len(),
            ls == chars_view(lns@),
            desc_end(ls, j as int, base as nat) == desc_end(ls, i + 1, base as nat),
        decreases n - j,
    {
        j = j + 1;
    }
    j
}

/// The raw lines of the description begun on line `i` with value `val`.
fn desc_raw_lines(val: &[char], lns: &Vec<Vec<char>>, i: usize, j: usize) -> (raw: Vec<String>)
    requires
        i < j <= lns@.len(),
    ensures
        strings_view(raw@) == desc_lines(val@, chars_view(lns@), i as int, j as int),
{
    let ghost ls = chars_view(lns@);
    let mut raw: Vec<String> = Vec::new();
    if val.len() > 0 {
        raw.push(from_chars(val));
    }
    let ghost first: Seq<Seq<char>> = if val@.len() > 0 {
        seq![val@]
    } else {
        seq![]
    };
    let mut k = i + 1;
    while k < j
        invariant
            i < k <= j <= lns@.len(),
            ls == chars_view(lns@),
            strings_view(raw@) == first + ls.subrange(i + 1, k as int).map_values(
                |l: Seq<char>| trim(l),
            ),
        decreases j - k,
    {
        let tl = trimmed(lns[k].as_slice());
        let ghost prev = strings_view(raw@);
        let ts = from_chars(tl.as_slice());
        raw.push(ts);
        assert(strings_view(raw@) =~= prev.push(ts@));
        assert(ls.subrange(i + 1, k + 1).map_values(|l: Seq<char>| trim(l)) =~= ls.subrange(
            i + 1,
            k as int,
        ).map_values(|l: Seq<char>| trim(l)).push(trim(ls[k as int])));
        k = k + 1;
    }
    assert(first + ls.subrange(i + 1, j as int).map_values(|l: Seq<char>| trim(l)) =~= desc_lines(
        val@,
        ls,
        i as int,
        j as int,
    ));
    raw
}

/// Parses the body of a card into an entry with the given label.
pub fn parse_card(label: &str, card: &str) -> (e: TimelineEntry)
    ensures
        e@ == card_model(label@, card@),
{
    let cs = to_chars(card);
    let lns = split_lines(cs.as_slice());
    let ghost ls = chars_view(lns@);
    let lv = to_chars(label);
    let mut e = TimelineEntry {
        label: from_chars(lv.as_slice()),
        title: None,
        company: None,
        location: None,
        desc: None,
        tags: Vec::new(),
        active: false,
        images: Vec::new(),
    };
    assert(e@ == empty_entry(label@)) by {
        assert(strings_view(e.tags@) =~= Seq::<Seq<char>>::empty());
        assert(pairs_view(e.images@) =~= Seq::<(Seq<char>, Seq<char>)>::empty());
    }
    let n = lns.len();
    let mut i: usize = 0;
    while i < n
        invariant
            i <= n == lns@.len(),
            ls == chars_view(lns@),
            ls == lines(card@),
            card_fold(ls, i as int, e@) == card_model(label@, card@),
        decreases n - i,
    {
        let line = lns[i].as_slice();
        let t = trimmed(line);
        if t.len() == 0 {
            i = i + 1;
        } else if starts_with_title(t.as_slice()) {
            let rest = slice_to_vec(t.as_slice(), 5, t.len());
            e.title = opt_string(trimmed(rest.as_slice()).as_slice());
            i = i + 1;
        } else {
            let mut imgs = parse_images(t.as_slice());
            let ghost before = pairs_view(e.images@);
            let ghost added = pairs_view(imgs@);
            e.images.append(&mut imgs);
            assert(pairs_view(e.images@) =~= before + added);
            match find_char(t.as_slice(), ':', 0) {
                None => {
                    i = i + 1;
                },
                Some(c) => {
                    proof {
                        crate::text::lemma_find_from(t@, seq![':'], 0);
                    }
                    let key_raw = trimmed(slice_to_vec(t.as_slice(), 0, c).as_slice());
                    let key_str = from_chars(key_raw.as_slice());
                    let key = to_lowercase(key_str.as_str());
                    let val_raw = slice_to_vec(t.as_slice(), c + 1, t.len());
                    let val = trimmed(val_raw.as_slice());
                    if is_desc_key(key.as_str()) {
                        let base = indentation_of(from_chars(line).as_str());
                        let j = desc_block_end(&lns, i, base);
                        let raw = desc_raw_lines(val.as_slice(), &lns, i, j);
                        e.desc = Some(join_desc_block(raw));
                        i = j;
                    } else {
                        set_field(&mut e, key.as_str(), val.as_slice());
                        i = i + 1;
                    }
                },
            }
        }
    }
    e
}

proof fn lemma_card_fold_keeps_label(lines: Seq<Seq<char>>, i: int, e: EntryModel)
    ensures
        card_fold(lines, i, e).label == e.label,
    decreases lines.len() - i,
{
    if 0 <= i < lines.len() {
        let line = lines[i];
        let t = trim(line);
        if t.len() == 0 || starts_with(t, title_marker()) {
            lemma_card_fold_keeps_label(lines, i + 1, if t.len() == 0 {
                e
            } else {
                EntryModel { title: Some(trim(t.skip(5))), ..e }
            });
        } else {
            let e1 = EntryModel { images: e.images + images_from(t, 0), ..e };
            match find_from(t, seq![':'], 0) {
                None => lemma_card_fold_keeps_label(lines, i + 1, e1),
                Some(c) => {
                    let key = key_of(t, c);
                    let val = value_of(t, c);
                    if key == "desc"@ || key == "description"@ {
                        let j = desc_end(lines, i + 1, lead_ws(line));
                        lemma_desc_end(lines, i + 1, lead_ws(line));
                        lemma_card_fold_keeps_label(
                            lines,
                            j,
                            EntryModel { desc: Some(join_desc(desc_lines(val, lines, i, j))), ..e1 },
                        );
                    } else {
                        lemma_card_fold_keeps_label(lines, i + 1, apply_field(e1, key, val));
                    }
                },
            }
        }
    }
}

proof fn lemma_card_fold_blank(lines: Seq<Seq<char>>, i: int, e: EntryModel)
    requires
        0 <= i,
        forall|k: int| 0 <= k < lines.len() ==> trim(#[trigger] lines[k]).len() == 0,
    ensures
        card_fold(lines, i, e) == e,
    decreases lines.len() - i,
{
    if i < lines.len() {
        assert(trim(lines[i]).len() == 0);
        lemma_card_fold_blank(lines, i + 1, e);
    }
}

/// A card keeps its label exactly as given, and a card whose lines are all blank
/// sets no field.
pub proof fn law_card_label_verbatim(label: Seq<char>, card: Seq<char>)
    ensures
        card_model(label, card).label == label,
        (forall|k: int| 0 <= k < lines(card).len() ==> trim(#[trigger] lines(card)[k]).len() == 0)
            ==> card_model(label, card) == empty_entry(label),
{
    lemma_card_fold_keeps_label(lines(card), 0, empty_entry(label));
    if forall|k: int| 0 <= k < lines(card).len() ==> trim(#[trigger] lines(card)[k]).len() == 0 {
        lemma_card_fold_blank(lines(card), 0, empty_entry(label));
    }
}

/// `{{label}}`, which opens an entry's label.
pub open spec fn label_open() -> Seq<char> {
    seq!['{', '{', 'l', 'a', 'b', 'e', 'l', '}', '}']
}

/// `{{/label}}`, which closes an entry's label.
pub open spec fn label_close() -> Seq<char> {
    seq!['{', '{', '/', 'l', 'a', 'b', 'e', 'l', '}', '}']
}

/// `{{card-start}}`, which opens an entry's card.
pub open spec fn card_open() -> Seq<char> {
    seq!['{', '{', 'c', 'a', 'r', 'd', '-', 's', 't', 'a', 'r', 't', '}', '}']
}

/// `{{card-end}}`, which closes an entry's card.
pub open spec fn card_close() -> Seq<char> {
    seq!['{', '{', 'c', 'a', 'r', 'd', '-', 'e', 'n', 'd', '}', '}']
}

/// The next entry of `s` at or after `from`, as the positions of its four markers:
/// the first `{{label}}`, the first `{{/label}}` after it, the first
/// `{{card-start}}` after that and the first `{{card-end}}` after that. There is
/// none when one of them is missing.
pub open spec fn entry_span(s: Seq<char>, from: int) -> Option<(int, int, int, int)> {
    match find_from(s, label_open(), from) {
        None => None,
        Some(p) => match find_from(s, label_close(), p + 9) {
            None => None,
            Some(q) => match find_from(s, card_open(), q + 10) {
                None => None,
                Some(r) => match find_from(s, card_close(), r + 14) {
                    None => None,
                    Some(t) => Some((p, q, r, t)),
                },
            },
        },
    }
}

/// The markers of an entry come in order, after `from` and within `s`.
pub proof fn lemma_entry_span(s: Seq<char>, from: int)
    requires
        0 <= from,
    ensures
        match entry_span(s, from) {
            Some((p, q, r, t)) => from <= p && p + 9 <= q && q + 10 <= r && r + 14 <= t && t + 12
                <= s.len(),
            None => true,
        },
{
    crate::text::lemma_find_from(s, label_open(), from);
    if let Some(p) = find_from(s, label_open(), from) {
        crate::text::lemma_find_from(s, label_close(), p + 9);
        if let Some(q) = find_from(s, label_close(), p + 9) {
            crate::text::lemma_find_from(s, card_open(), q + 10);
            if let Some(r) = find_from(s, card_open(), q + 10) {
                crate::text::lemma_find_from(s, card_close(), r + 14);
            }
        }
    }
}

/// The entries of `s` from position `from` on, left to right: each has the text
/// between its label markers, trimmed, as label, and is read from the text
/// between its card markers.
pub open spec fn entries_from(s: Seq<char>, from: int) -> Seq<EntryModel>
    decreases s.len() + 1 - from,
{
    if from < 0 || from > s.len() {
        seq![]
    } else {
        match entry_span(s, from) {
            Some((p, q, r, t)) => {
                proof {
                    lemma_entry_span(s, from);
                }
                seq![card_model(trim(s.subrange(p + 9, q)), s.subrange(r + 14, t))]
                    + entries_from(s, t + 12)
            },
            None => seq![],
        }
    }
}

/// The entries of a timeline block.
pub open spec fn block_entries(block: Seq<char>) -> Seq<EntryModel> {
    entries_from(block, 0)
}

fn label_open_chars() -> (r: Vec<char>)
    ensures
        r@ == label_open(),
{
    vec!['{', '{', 'l', 'a', 'b', 'e', 'l', '}', '}']
}

fn label_close_chars() -> (r: Vec<char>)
    ensures
        r@ == label_close(),
{
    vec!['{', '{', '/', 'l', 'a', 'b', 'e', 'l', '}', '}']
}

fn card_open_chars() -> (r: Vec<char>)
    ensures
        r@ == card_open(),
{
    vec!['{', '{', 'c', 'a', 'r', 'd', '-', 's', 't', 'a', 'r', 't', '}', '}']
}

fn card_close_chars() -> (r: Vec<char>)
    ensures
        r@ == card_close(),
{
    vec!['{', '{', 'c', 'a', 'r', 'd', '-', 'e', 'n', 'd', '}', '}']
}

/// The next entry of `s` at or after `from`, as `entry_span` gives it.
fn next_entry(
    s: &[char],
    from: usize,
    lo: &[char],
    lc: &[char],
    co: &[char],
    cc: &[char],
) -> (r: Option<(usize, usize, usize, usize)>)
    requires
        lo@ == label_open(),
        lc@ == label_close(),
        co@ == card_open(),
        cc@ == card_close(),
    ensures
        match r {
            Some((p, q, r, t)) => entry_span(s@, from as int) == Some(
                (p as int, q as int, r as int, t as int),
            ),
            None => entry_span(s@, from as int) is None,
        },
{
    // A slice's length fits in a `usize`.
    let _n = s.len();
    let found = find(s, lo, from);
    if found.is_none() {
        return None;
    }
    let p = found.unwrap();
    proof {
        crate::text::lemma_find_from(s@, label_open(), from as int);
    }
    let found = find(s, lc, p + 9);
    if found.is_none() {
        return None;
    }
    let q = found.unwrap();
    proof {
        crate::text::lemma_find_from(s@, label_close(), p + 9);
    }
    let found = find(s, co, q + 10);
    if found.is_none() {
        return None;
    }
    let r = found.unwrap();
    proof {
        crate::text::lemma_find_from(s@, card_open(), q + 10);
    }
    let found = find(s, cc, r + 14);
    if found.is_none() {
        return None;
    }
    let t = found.unwrap();
    Some((p, q, r, t))
}

/// Parses every entry of a timeline block, in order.
pub fn parse_entries(block: &str) -> (r: Vec<TimelineEntry>)
    ensures
        entries_view(r@) == block_entries(block@),
{
    let s = to_chars(block);
    let lo = label_open_chars();
    let lc = label_close_chars();
    let co = card_open_chars();
    let cc = card_close_chars();
    let n = s.len();
    let mut out: Vec<TimelineEntry> = Vec::new();
    let mut pos: usize = 0;
    loop
        invariant
            pos <= n == s@.len(),
            s@ == block@,
            lo@ == label_open(),
            lc@ == label_close(),
            co@ == card_open(),
            cc@ == card_close(),
            entries_view(out@) + entries_from(s@, pos as int) == entries_from(s@, 0),
        decreases n - pos,
    {
        match next_entry(s.as_slice(), pos, lo.as_slice(), lc.as_slice(), co.as_slice(), cc.as_slice()) {
            None => {
                return out;
            },
            Some((p, q, r, t)) => {
                proof {
                    lemma_entry_span(s@, pos as int);
                }
                let label_chars = trimmed(slice_to_vec(s.as_slice(), p + 9, q).as_slice());
                let label = from_chars(label_chars.as_slice());
                let card = from_chars(slice_to_vec(s.as_slice(), r + 14, t).as_slice());
                let entry = parse_card(label.as_str(), card.as_str());
                let ghost prev = entries_view(out@);
                out.push(entry);
                assert(prev.push(entry@) + entries_from(s@, t + 12) =~= prev + (seq![entry@]
                    + entries_from(s@, t + 12)));
                pos = t + 12;
            },
        }
    }
}

/// `x` holds no `{`.
pub open spec fn no_brace(x: Seq<char>) -> bool {
    forall|k: int| 0 <= k < x.len() ==> x[k] != '{'
}

proof fn lemma_find_skips_prefix(x: Seq<char>, s: Seq<char>, pat: Seq<char>, j: int)
    requires
        0 <= j <= x.len(),
        no_brace(x),
        pat.len() > 0,
        pat[0] == '{',
    ensures
        find_from(x + s, pat, j) == find_from(x + s, pat, x.len() as int),
    decreases x.len() - j,
{
    if j < x.len() {
        lemma_find_skips_prefix(x, s, pat, j + 1);
    }
}

proof fn lemma_entries_shift(x: Seq<char>, s: Seq<char>, i: int)
    requires
        0 <= i <= s.len(),
    ensures
        entries_from(x + s, x.len() + i) == entries_from(s, i),
    decreases s.len() + 1 - i,
{
    let xs = x + s;
    let d = x.len() as int;
    crate::text::lemma_find_shift(x, s, label_open(), i);
    lemma_entry_span(s, i);
    if let Some(p) = find_from(s, label_open(), i) {
        crate::text::lemma_find_from(s, label_open(), i);
        crate::text::lemma_find_shift(x, s, label_close(), p + 9);
        if let Some(q) = find_from(s, label_close(), p + 9) {
            crate::text::lemma_find_from(s, label_close(), p + 9);
            crate::text::lemma_find_shift(x, s, card_open(), q + 10);
            if let Some(r) = find_from(s, card_open(), q + 10) {
                crate::text::lemma_find_from(s, card_open(), q + 10);
                crate::text::lemma_find_shift(x, s, card_close(), r + 14);
                if let Some(t) = find_from(s, card_close(), r + 14) {
                    assert(xs.subrange(d + p + 9, d + q) =~= s.subrange(p + 9, q));
                    assert(xs.subrange(d + r + 14, d + t) =~= s.subrange(r + 14, t));
                    lemma_entries_shift(x, s, t + 12);
                }
            }
        }
    }
}

/// Text before a block's first entry that holds no `{` does not change the
/// entries parsed from it.
pub proof fn law_entries_ignore_leading_text(x: Seq<char>, s: Seq<char>)
    requires
        no_brace(x),
    ensures
        block_entries(x + s) == block_entries(s),
{
    let xs = x + s;
    lemma_find_skips_prefix(x, s, label_open(), 0);
    lemma_entries_shift(x, s, 0);
    lemma_entry_span(xs, 0);
    lemma_entry_span(xs, x.len() as int);
}


/// The text of one entry: its label between the label markers, any text `mid`
/// between the label and the card, and its card between the card markers.
pub open spec fn entry_text(lbl: Seq<char>, mid: Seq<char>, card: Seq<char>) -> Seq<char> {
    label_open() + lbl + label_close() + mid + card_open() + card + card_close()
}

/// Every entry of a block is parsed, in the order written: a block that starts
/// with an entry gives that entry (its label trimmed, its card read) followed by
/// the entries of the rest. Here the label, the text between label and card and
/// the card hold no marker that would end them early.
pub proof fn law_entries_in_order(lbl: Seq<char>, mid: Seq<char>, card: Seq<char>, s: Seq<char>)
    requires
        find_from(lbl + label_close(), label_close(), 0) == Some(lbl.len() as int),
        find_from(mid + card_open(), card_open(), 0) == Some(mid.len() as int),
        find_from(card + card_close(), card_close(), 0) == Some(card.len() as int),
    ensures
        block_entries(entry_text(lbl, mid, card) + s) == seq![card_model(trim(lbl), card)]
            + block_entries(s),
{
    let lo = label_open();
    let lc = label_close();
    let co = card_open();
    let cc = card_close();
    let e = entry_text(lbl, mid, card);
    let w = e + s;
    // the opening label marker is at the very start
    assert(w.subrange(0, 9) =~= lo);
    assert(find_from(w, lo, 0) == Some(0int));
    // the closing label marker right after the label
    let r1 = mid + co + card + cc + s;
    assert(w =~= lo + ((lbl + lc) + r1));
    crate::text::lemma_find_extend(lbl + lc, r1, lc, 0);
    assert((lbl + lc) + r1 =~= lbl + lc + r1);
    crate::text::lemma_find_shift(lo, (lbl + lc) + r1, lc, 0);
    let q: int = 9 + lbl.len() as int;
    assert(find_from(w, lc, 9) == Some(q));
    // the card's opening marker after the text between
    let p1 = lo + lbl + lc;
    let r2 = card + cc + s;
    assert(w =~= p1 + ((mid + co) + r2));
    crate::text::lemma_find_extend(mid + co, r2, co, 0);
    crate::text::lemma_find_shift(p1, (mid + co) + r2, co, 0);
    let r: int = q + 10 + mid.len();
    assert(find_from(w, co, q + 10) == Some(r));
    // the card's closing marker right after the card
    let p2 = p1 + mid + co;
    assert(w =~= p2 + ((card + cc) + s));
    crate::text::lemma_find_extend(card + cc, s, cc, 0);
    crate::text::lemma_find_shift(p2, (card + cc) + s, cc, 0);
    let t: int = r + 14 + card.len();
    assert(find_from(w, cc, r + 14) == Some(t));
    assert(entry_span(w, 0) == Some((0int, q, r, t)));
    assert(w.subrange(9, q) =~= lbl);
    assert(w.subrange(r + 14, t) =~= card);
    assert(t + 12 == e.len());
    lemma_entries_shift(e, s, 0);
    lemma_entry_span(w, 0);
}

proof fn lemma_lines_single(s: Seq<char>, i: int, done: Seq<Seq<char>>, cur: Seq<char>)
    requires
        0 <= i <= s.len(),
        forall|k: int| 0 <= k < s.len() ==> s[k] != '\n',
        cur.len() + s.len() - i > 0,
    ensures
        crate::text::lines_from(s, i, done, cur) == done.push(cur + s.skip(i)),
    decreases s.len() - i,
{
    if i < s.len() {
        assert(s[i] != '\n');
        lemma_lines_single(s, i + 1, done, cur.push(s[i]));
        assert(cur.push(s[i]) + s.skip(i + 1) =~= cur + s.skip(i));
    } else {
        assert(cur + s.skip(i) =~= cur);
    }
}

proof fn lemma_first_colon(t: Seq<char>, k: int, j: int)
    requires
        0 <= j <= k < t.len(),
        t[k] == ':',
        forall|i: int| 0 <= i < k ==> t[i] != ':',
    ensures
        find_from(t, seq![':'], j) == Some(k),
    decreases k - j,
{
    if j < k {
        assert(t.subrange(j, j + 1)[0] == t[j]);
        assert(!crate::text::occurs_at(t, seq![':'], j));
        lemma_first_colon(t, k, j + 1);
    } else {
        assert(t.subrange(k, k + 1) =~= seq![':']);
    }
}

/// The facts about one field line `k: v` that has no line break nor surrounding
/// whitespace, whose `k` holds no `:` and does not begin a title.
proof fn lemma_one_field_line(k: Seq<char>, v: Seq<char>)
    requires
        ({
            let line = k + seq![':'] + v;
            &&& forall|i: int| 0 <= i < line.len() ==> line[i] != '\n'
            &&& trim(line) == line
        }),
        forall|i: int| 0 <= i < k.len() ==> k[i] != ':',
        k.len() > 0,
        k[0] != '#',
    ensures
        ({
            let line = k + seq![':'] + v;
            &&& lines(line) == seq![line]
            &&& find_from(line, seq![':'], 0) == Some(k.len() as int)
            &&& line.take(k.len() as int) == k
            &&& line.skip((k.len() + 1) as int) == v
            &&& !starts_with(line, title_marker())
        }),
{
    let line = k + seq![':'] + v;
    lemma_lines_single(line, 0, seq![], seq![]);
    assert(Seq::<char>::empty() + line.skip(0) =~= line);
    assert(Seq::<Seq<char>>::empty().push(line) =~= seq![line]);
    assert(line[k.len() as int] == ':');
    lemma_first_colon(line, k.len() as int, 0);
    assert(line.take(k.len() as int) =~= k);
    assert(line.skip((k.len() + 1) as int) =~= v);
    if title_marker().len() <= line.len() {
        assert(line.take(5)[0] == line[0]);
    }
}

/// The value of a card field is the whole trimmed text after the first `:` of
/// its line, `:` characters included: a `company` line `k: v` (no line break, no
/// surrounding whitespace, no `:` in `k`, `k` lower-casing to `company`) sets
/// the company to `v` trimmed.
pub proof fn law_field_value_is_text_after_first_colon(label: Seq<char>, k: Seq<char>, v: Seq<char>)
    requires
        ({
            let line = k + seq![':'] + v;
            &&& forall|i: int| 0 <= i < line.len() ==> line[i] != '\n'
            &&& trim(line) == line
        }),
        forall|i: int| 0 <= i < k.len() ==> k[i] != ':',
        k.len() > 0,
        k[0] != '#',
        unicode_lowercase(trim(k)) == "company"@,
    ensures
        card_model(label, k + seq![':'] + v).company == Some(trim(v)),
{
    lemma_one_field_line(k, v);
    reveal_strlit("company");
    reveal_strlit("desc");
    reveal_strlit("description");
    let line = k + seq![':'] + v;
    let ls = seq![line];
    let e = empty_entry(label);
    let e1 = EntryModel { images: e.images + images_from(line, 0), ..e };
    let key = key_of(line, k.len() as int);
    let val = value_of(line, k.len() as int);
    assert(key == "company"@);
    assert("company"@.len() == 7 && "desc"@.len() == 4 && "description"@.len() == 11);
    assert(key != "desc"@ && key != "description"@);
    assert(val == trim(v));
    assert(ls[0] == line);
    assert(trim(ls[0]) == line);
    assert(trim(ls[0]).len() != 0);
    assert(!starts_with(trim(ls[0]), title_marker()));
    assert(find_from(trim(ls[0]), seq![':'], 0) == Some(k.len() as int));
    assert(card_fold(ls, 1, apply_field(e1, key, val)) == apply_field(e1, key, val));
    assert(card_fold(ls, 0, e) == card_fold(ls, 1, apply_field(e1, key, val)));
}

/// The same for a one-line `desc` field with a non-empty value: the description
/// is the whole trimmed text after the first `:`.
pub proof fn law_desc_value_is_text_after_first_colon(label: Seq<char>, k: Seq<char>, v: Seq<char>)
    requires
        ({
            let line = k + seq![':'] + v;
            &&& forall|i: int| 0 <= i < line.len() ==> line[i] != '\n'
            &&& trim(line) == line
        }),
        forall|i: int| 0 <= i < k.len() ==> k[i] != ':',
        k.len() > 0,
        k[0] != '#',
        unicode_lowercase(trim(k)) == "desc"@,
        trim(v).len() > 0,
    ensures
        card_model(label, k + seq![':'] + v).desc == Some(trim(v)),
{
    lemma_one_field_line(k, v);
    let line = k + seq![':'] + v;
    let ls = seq![line];
    let e = empty_entry(label);
    let e1 = EntryModel { images: e.images + images_from(line, 0), ..e };
    let val = value_of(line, k.len() as int);
    assert(val == trim(v));
    assert(ls[0] == line);
    assert(desc_end(ls, 1, lead_ws(line)) == 1);
    assert(ls.subrange(1, 1).map_values(|l: Seq<char>| trim(l)) =~= Seq::<Seq<char>>::empty());
    assert(desc_lines(val, ls, 0, 1) =~= seq![trim(v)]);
    crate::desc::law_join_desc_single_paragraph(seq![trim(v)]);
    assert(crate::desc::join(seq![trim(v)], crate::desc::line_break()) == trim(v));
    let e2 = EntryModel { desc: Some(join_desc(desc_lines(val, ls, 0, 1))), ..e1 };
    assert(card_fold(ls, 1, e2) == e2);
    assert(card_fold(ls, 0, e) == card_fold(ls, 1, e2));
}

/// A title line `#### v` (no line break, no surrounding whitespace) sets the
/// title to all of `v` after the marker, trimmed.
pub proof fn law_title_is_text_after_marker(label: Seq<char>, v: Seq<char>)
    requires
        forall|i: int| 0 <= i < v.len() ==> v[i] != '\n',
        trim(title_marker() + v) == title_marker() + v,
    ensures
        card_model(label, title_marker() + v).title == Some(trim(v)),
{
    let line = title_marker() + v;
    assert forall|i: int| 0 <= i < line.len() implies line[i] != '\n' by {
        if i >= 5 {
            assert(line[i] == v[i - 5]);
        }
    }
    lemma_lines_single(line, 0, seq![], seq![]);
    assert(Seq::<char>::empty() + line.skip(0) =~= line);
    assert(Seq::<Seq<char>>::empty().push(line) =~= seq![line]);
    let ls = seq![line];
    assert(ls[0] == line);
    assert(line.take(5) =~= title_marker());
    assert(starts_with(trim(ls[0]), title_marker()));
    assert(line.skip(5) =~= v);
    let e = empty_entry(label);
    let e2 = EntryModel { title: Some(trim(v)), ..e };
    assert(card_fold(ls, 1, e2) == e2);
    assert(card_fold(ls, 0, e) == card_fold(ls, 1, e2));
}

} // verus!
