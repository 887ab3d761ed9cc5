//! The preprocessor: replacing timeline blocks in a book's chapters and adding
//! the stylesheet and script that the timelines need.
use vstd::prelude::*;
use crate::assets::{TIMELINE_CSS, TIMELINE_JS};
use crate::card::{block_entries, parse_entries};
use crate::config::{ConfigModel, TimelineConfig};
use crate::desc::{chars_view, strings_view};
use crate::entry::{entries_view, TimelineEntry};
use crate::render::{gap_fits, gaps_fit, labels_gap_fit, render_timeline, timeline_html_of};
use crate::text::{find, find_from, from_chars, str_eq, to_chars};

verus! {

/// `{{m}}`, which opens a block of marker `m`.
pub open spec fn open_tag(m: Seq<char>) -> Seq<char> {
    seq!['{', '{'] + m + seq!['}', '}']
}

/// `{{/m}}`, which closes a block of marker `m`.
pub open spec fn close_tag(m: Seq<char>) -> Seq<char> {
    seq!['{', '{', '/'] + m + seq!['}', '}']
}

/// The next block of marker `m` in `s` at or after `from`: the first `{{m}}` and
/// the first `{{/m}}` after it. There is none when either is missing.
pub open spec fn block_span(s: Seq<char>, m: Seq<char>, from: int) -> Option<(int, int)> {
    match find_from(s, open_tag(m), from) {
        None => None,
        Some(p) => match find_from(s, close_tag(m), p + open_tag(m).len()) {
            None => None,
            Some(q) => Some((p, q)),
        },
    }
}

/// The tags of a block come in order, after `from` and within `s`.
pub proof fn lemma_block_span(s: Seq<char>, m: Seq<char>, from: int)
    requires
        0 <= from,
    ensures
        match block_span(s, m, from) {
            Some((p, q)) => from <= p && p + open_tag(m).len() <= q && q + close_tag(m).len()
                <= s.len(),
            None => true,
        },
{
    crate::text::lemma_find_from(s, open_tag(m), from);
    if let Some(p) = find_from(s, open_tag(m), from) {
        crate::text::lemma_find_from(s, close_tag(m), p + open_tag(m).len());
    }
}

/// `s` from position `from` on with each block of marker `m` replaced by its
/// timeline, the timelines numbered on from `count`; with the number of the last
/// one. There is no result when duration labels are on and two neighbouring
/// labels of a block differ by more than an `i64` holds.
pub open spec fn replace_from(cfg: ConfigModel, s: Seq<char>, m: Seq<char>, from: int, count: nat) -> Option<
    (Seq<char>, nat),
>
    decreases s.len() + 1 - from,
{
    if from < 0 || from > s.len() {
        Some((seq![], count))
    } else {
        match block_span(s, m, from) {
            None => Some((s.subrange(from, s.len() as int), count)),
            Some((p, q)) => {
                proof {
                    lemma_block_span(s, m, from);
                }
                let es = block_entries(s.subrange(p + open_tag(m).len(), q));
                if cfg.duration_gaps && !gaps_fit(es) {
                    None
                } else {
                    match replace_from(cfg, s, m, q + close_tag(m).len(), count + 1) {
                        None => None,
                        Some((rest, c)) => Some(
                            (s.subrange(from, p) + timeline_html_of(es, count + 1, cfg) + rest, c),
                        ),
                    }
                }
            },
        }
    }
}

/// `s` after the blocks of the markers from the `k`-th on are replaced, marker
/// after marker; with the number of the last timeline.
pub open spec fn markers_from(cfg: ConfigModel, s: Seq<char>, k: int, count: nat) -> Option<
    (Seq<char>, nat),
>
    decreases cfg.markers.len() - k,
{
    if k < 0 || k >= cfg.markers.len() {
        Some((s, count))
    } else {
        match replace_from(cfg, s, cfg.markers[k], 0, count) {
            None => None,
            Some((s2, c2)) => markers_from(cfg, s2, k + 1, c2),
        }
    }
}

/// A chapter's content with its timeline blocks replaced, and how many there were.
pub open spec fn chapter_timelines(cfg: ConfigModel, content: Seq<char>) -> Option<(Seq<char>, nat)> {
    markers_from(cfg, content, 0, 0)
}

/// The stylesheet block put before each chapter holding a timeline.
pub open spec fn style_block() -> Seq<char> {
    "<style>\n"@ + TIMELINE_CSS@ + "\n</style>\n"@
}

/// The script block put after each chapter holding timeline HTML.
pub open spec fn script_block() -> Seq<char> {
    "\n<script>\n"@ + TIMELINE_JS@ + "\n</script>"@
}

/// `class="tl"`, the mark of timeline HTML.
pub open spec fn tl_class() -> Seq<char> {
    seq!['c', 'l', 'a', 's', 's', '=', '"', 't', 'l', '"']
}

/// The chapters from the `i`-th on with their timelines replaced, the stylesheet
/// put before each one that had a timeline; with whether some chapter so far
/// (`had` for those before the `i`-th) had a timeline.
pub open spec fn book_from(cfg: ConfigModel, chs: Seq<Seq<char>>, i: int, had: bool) -> Option<
    (Seq<Seq<char>>, bool),
>
    decreases chs.len() - i,
{
    if i < 0 || i >= chs.len() {
        Some((seq![], had))
    } else {
        match chapter_timelines(cfg, chs[i]) {
            None => None,
            Some((c, n)) => {
                let c2 = if n > 0 {
                    style_block() + c
                } else {
                    c
                };
                match book_from(cfg, chs, i + 1, had || n > 0) {
                    None => None,
                    Some((rest, h)) => Some((seq![c2] + rest, h)),
                }
            },
        }
    }
}

/// A chapter with the script appended when it holds timeline HTML.
pub open spec fn with_script(c: Seq<char>) -> Seq<char> {
    if find_from(c, tl_class(), 0) is Some {
        c + script_block()
    } else {
        c
    }
}

/// The chapters after the preprocessor has run: timelines replaced, the
/// stylesheet before every chapter with a timeline, and, when the book had a
/// timeline, the script after every chapter holding timeline HTML. There is no
/// result when a block's labels overflow (see `replace_from`).
pub open spec fn run_of(cfg: ConfigModel, chs: Seq<Seq<char>>) -> Option<Seq<Seq<char>>> {
    match book_from(cfg, chs, 0, false) {
        None => None,
        Some((out, had)) => Some(
            if had {
                out.map_values(|c: Seq<char>| with_script(c))
            } else {
                out
            },
        ),
    }
}

/// Whether every two neighbouring labels of `entries` satisfy `gap_fits`.
pub fn check_gaps(entries: &Vec<TimelineEntry>) -> (r: bool)
    ensures
        r == gaps_fit(entries_view(entries@)),
{
    let ghost es = entries_view(entries@);
    let n = entries.len();
    if n == 0 {
        return true;
    }
    let mut i: usize = 0;
    while i + 1 < n
        invariant
            0 < n == entries@.len() == es.len(),
            i < n,
            es == entries_view(entries@),
            forall|k: int| 0 <= k < i ==> gap_fits(#[trigger] es[k].label, es[k + 1].label),
        decreases n - i,
    {
        if !labels_gap_fit(entries[i].label.as_str(), entries[i + 1].label.as_str()) {
            assert(es[i as int].label == entries@[i as int].label@);
            assert(es[i + 1].label == entries@[i + 1].label@);
            return false;
        }
        i = i + 1;
    }
    true
}

/// `{{m}}` for the marker `m`.
fn open_tag_chars(m: &[char]) -> (r: Vec<char>)
    ensures
        r@ == open_tag(m@),
{
    let mut v = vec!['{', '{'];
    v.extend_from_slice(m);
    v.push('}');
    v.push('}');
    v
}

/// `{{/m}}` for the marker `m`.
fn close_tag_chars(m: &[char]) -> (r: Vec<char>)
    ensures
        r@ == close_tag(m@),
{
    let mut v = vec!['{', '{', '/'];
    v.extend_from_slice(m);
    v.push('}');
    v.push('}');
    v
}

/// Replaces each block of marker `marker` in `s` by its timeline, numbering the
/// timelines on from `count`; gives the new text and the number of the last one.
fn replace_blocks(s: &Vec<char>, marker: &[char], config: &TimelineConfig, count: usize) -> (r: Option<
    (String, usize),
>)
    requires
        count + s@.len() / 9 <= usize::MAX,
    ensures
        match r {
            Some((out, c)) => replace_from(config@, s@, marker@, 0, count as nat) == Some(
                (out@, c as nat),
            ) && c <= count + s@.len() / 9,
            None => replace_from(config@, s@, marker@, 0, count as nat) is None,
        },
{
    let open = open_tag_chars(marker);
    let close = close_tag_chars(marker);
    let ghost m = marker@;
    let ghost cfg = config@;
    let ghost total = replace_from(cfg, s@, m, 0, count as nat);
    let n = s.len();
    let mut out = String::new();
    let mut pos: usize = 0;
    let mut cnt: usize = count;
    loop
        invariant
            pos <= n == s@.len(),
            open@ == open_tag(m),
            close@ == close_tag(m),
            m == marker@,
            cfg == config@,
            total == replace_from(cfg, s@, m, 0, count as nat),
            count <= cnt,
            9 * (cnt - count) <= pos,
            count + s@.len() / 9 <= usize::MAX,
            total == match replace_from(cfg, s@, m, pos as int, cnt as nat) {
                None => None,
                Some((rest, c)) => Some((out@ + rest, c)),
            },
        decreases n - pos,
    {
        let found = find(s.as_slice(), open.as_slice(), pos);
        let p = match found {
            None => {
                let tail = from_chars(crate::text::slice_to_vec(s.as_slice(), pos, n).as_slice());
                out.append(tail.as_str());
                return Some((out, cnt));
            },
            Some(p) => p,
        };
        proof {
            crate::text::lemma_find_from(s@, open_tag(m), pos as int);
        }
        let found = find(s.as_slice(), close.as_slice(), p + open.len());
        let q = match found {
            None => {
                let tail = from_chars(crate::text::slice_to_vec(s.as_slice(), pos, n).as_slice());
                out.append(tail.as_str());
                return Some((out, cnt));
            },
            Some(q) => q,
        };
        proof {
            crate::text::lemma_find_from(s@, close_tag(m), p + open_tag(m).len());
            lemma_block_span(s@, m, pos as int);
        }
        let body = from_chars(crate::text::slice_to_vec(s.as_slice(), p + open.len(), q).as_slice());
        let entries = parse_entries(body.as_str());
        if config.duration_gaps() && !check_gaps(&entries) {
            return None;
        }
        let html = render_timeline(&entries, cnt + 1, config);
        let before = from_chars(crate::text::slice_to_vec(s.as_slice(), pos, p).as_slice());
        let ghost prev = out@;
        out.append(before.as_str());
        out.append(html.as_str());
        proof {
            let next = replace_from(cfg, s@, m, q + close_tag(m).len(), (cnt + 1) as nat);
            if let Some((rest, c)) = next {
                assert(out@ + rest =~= prev + (s@.subrange(pos as int, p as int) + timeline_html_of(
                    block_entries(s@.subrange(p + open_tag(m).len(), q as int)),
                    (cnt + 1) as nat,
                    cfg,
                ) + rest));
            }
        }
        cnt = cnt + 1;
        pos = q + close.len();
    }
}

/// Replaces the timeline blocks of one chapter, marker after marker; gives the
/// new content and how many timelines it holds.
fn process_chapter(config: &TimelineConfig, content: &String) -> (r: Option<(String, usize)>)
    ensures
        match r {
            Some((c, n)) => chapter_timelines(config@, content@) == Some((c@, n as nat)),
            None => chapter_timelines(config@, content@) is None,
        },
{
    let markers = config.markers();
    let ghost cfg = config@;
    let k_max = markers.len();
    let mut cur = String::new();
    cur.append(content.as_str());
    let mut count: usize = 0;
    let mut k: usize = 0;
    while k < k_max
        invariant
            k <= k_max == markers@.len() <= 2,
            cfg == config@,
            markers@.map_values(|m: String| m@) == cfg.markers,
            k == 0 ==> count == 0,
            k == 1 ==> count <= usize::MAX / 9,
            k == 2 ==> count <= 2 * (usize::MAX / 9),
            chapter_timelines(cfg, content@) == markers_from(cfg, cur@, k as int, count as nat),
        decreases k_max - k,
    {
        let chars = to_chars(cur.as_str());
        // A vector's length fits in a `usize`.
        let _len = chars.len();
        let m = to_chars(markers[k].as_str());
        match replace_blocks(&chars, m.as_slice(), config, count) {
            None => {
                return None;
            },
            Some((next, c)) => {
                cur = next;
                count = c;
            },
        }
        k = k + 1;
    }
    Some((cur, count))
}

/// `content` with the stylesheet block before it.
fn prepend_style(content: &String) -> (r: String)
    ensures
        r@ == style_block() + content@,
{
    let mut out = String::new();
    out.append("<style>\n");
    out.append(TIMELINE_CSS);
    out.append("\n</style>\n");
    out.append(content.as_str());
    out
}

/// `content` with the script appended when it holds timeline HTML.
fn append_script(content: String) -> (r: String)
    ensures
        r@ == with_script(content@),
{
    let chars = to_chars(content.as_str());
    let mark = vec!['c', 'l', 'a', 's', 's', '=', '"', 't', 'l', '"'];
    match find(chars.as_slice(), mark.as_slice(), 0) {
        Some(_) => {
            let mut out = content;
            out.append("\n<script>\n");
            out.append(TIMELINE_JS);
            out.append("\n</script>");
            out
        },
        None => content,
    }
}

/// The preprocessor that renders `{{timeline}}` blocks.
pub struct TimelinePreprocessor;

impl TimelinePreprocessor {
    /// The preprocessor.
    pub fn new() -> (r: Self) {
        TimelinePreprocessor
    }

    /// The preprocessor's name.
    pub fn name(&self) -> (r: &'static str)
        ensures
            r@ == "timeline-preprocessor"@,
    {
        "timeline-preprocessor"
    }

    /// Whether the preprocessor serves the renderer: `html` and `markdown` only.
    pub fn supports_renderer(&self, renderer: &str) -> (r: bool)
        ensures
            r == (renderer@ == "html"@ || renderer@ == "markdown"@),
    {
        str_eq(renderer, "html") || str_eq(renderer, "markdown")
    }

    /// Runs the preprocessor over the contents of a book's chapters, given in the
    /// order the book lists them. There is no result when a timeline's
    /// neighbouring numeric labels differ by more than an `i64` holds (with
    /// duration labels on).
    pub fn run(&self, config: &TimelineConfig, chapters: Vec<String>) -> (r: Option<Vec<String>>)
        ensures
            match r {
                Some(out) => run_of(config@, strings_view(chapters@)) == Some(strings_view(out@)),
                None => run_of(config@, strings_view(chapters@)) is None,
            },
    {
        let ghost cfg = config@;
        let ghost chs = strings_view(chapters@);
        let ghost total = book_from(cfg, chs, 0, false);
        let n = chapters.len();
        let mut out: Vec<String> = Vec::new();
        let mut had = false;
        let mut i: usize = 0;
        while i < n
            invariant
                i <= n == chapters@.len() == chs.len(),
                out@.len() == i,
                chs == strings_view(chapters@),
                cfg == config@,
                total == book_from(cfg, chs, 0, false),
                total == match book_from(cfg, chs, i as int, had) {
                    None => None,
                    Some((rest, h)) => Some((strings_view(out@) + rest, h)),
                },
            decreases n - i,
        {
            match process_chapter(config, &chapters[i]) {
                None => {
                    return None;
                },
                Some((c, cnt)) => {
                    let add = cnt > 0;
                    let c2 = if add {
                        prepend_style(&c)
                    } else {
                        c
                    };
                    out.push(c2);
                    had = had || add;
                },
            }
            i = i + 1;
        }
        if !had {
            return Some(out);
        }
        let ghost firsts = strings_view(out@);
        let mut done: Vec<String> = Vec::new();
        let mut j: usize = 0;
        while j < n
            invariant
                j <= n == firsts.len() == out@.len(),
                firsts == strings_view(out@),
                strings_view(done@) == firsts.take(j as int).map_values(|c: Seq<char>| with_script(c)),
            decreases n - j,
        {
            let c = out[j].clone();
            let c2 = append_script(c);
            done.push(c2);
            assert(firsts.take(j + 1).map_values(|c: Seq<char>| with_script(c)) =~= firsts.take(
                j as int,
            ).map_values(|c: Seq<char>| with_script(c)).push(with_script(firsts[j as int])));
            j = j + 1;
        }
        Some(done)
    }
}

/// The chapter holds a complete block of some marker of `cfg`: an opening tag
/// with a closing tag after it.
pub open spec fn holds_block(cfg: ConfigModel, c: Seq<char>) -> bool {
    exists|k: int| 0 <= k < cfg.markers.len() && block_span(c, cfg.markers[k], 0) is Some
}

proof fn lemma_markers_untouched(cfg: ConfigModel, s: Seq<char>, k: int)
    requires
        0 <= k,
        !holds_block(cfg, s),
    ensures
        markers_from(cfg, s, k, 0) == Some((s, 0nat)),
    decreases cfg.markers.len() - k,
{
    if k < cfg.markers.len() {
        assert(block_span(s, cfg.markers[k], 0) is None);
        assert(s.subrange(0, s.len() as int) =~= s);
        lemma_markers_untouched(cfg, s, k + 1);
    }
}

proof fn lemma_book_untouched(cfg: ConfigModel, chs: Seq<Seq<char>>, i: int)
    requires
        0 <= i <= chs.len(),
        forall|j: int| 0 <= j < chs.len() ==> !holds_block(cfg, #[trigger] chs[j]),
    ensures
        book_from(cfg, chs, i, false) == Some((chs.skip(i), false)),
    decreases chs.len() - i,
{
    if i < chs.len() {
        lemma_markers_untouched(cfg, chs[i], 0);
        lemma_book_untouched(cfg, chs, i + 1);
    }
}

/// A book in which no chapter holds a complete block of a marker comes out as it
/// went in: no chapter is changed, and neither stylesheet nor script is added,
/// even to a chapter that holds timeline HTML.
pub proof fn law_book_without_timelines_unchanged(cfg: ConfigModel, chs: Seq<Seq<char>>)
    requires
        forall|j: int| 0 <= j < chs.len() ==> !holds_block(cfg, #[trigger] chs[j]),
    ensures
        run_of(cfg, chs) == Some(chs),
{
    lemma_book_untouched(cfg, chs, 0);
}

/// The chapter holds at least one timeline.
pub open spec fn has_timeline(cfg: ConfigModel, c: Seq<char>) -> bool {
    chapter_timelines(cfg, c) matches Some((_, n)) && n > 0
}

/// The chapter content after its timelines are replaced.
pub open spec fn replaced(cfg: ConfigModel, c: Seq<char>) -> Seq<char> {
    match chapter_timelines(cfg, c) {
        Some((r, _)) => r,
        None => c,
    }
}

proof fn lemma_book_style(cfg: ConfigModel, chs: Seq<Seq<char>>, i: int, had: bool)
    requires
        0 <= i <= chs.len(),
        book_from(cfg, chs, i, had) is Some,
    ensures
        ({
            let (out, h) = book_from(cfg, chs, i, had)->0;
            &&& out.len() == chs.len() - i
            &&& h == (had || exists|j: int| i <= j < chs.len() && has_timeline(cfg, chs[j]))
            &&& forall|k: int|
                0 <= k < out.len() ==> #[trigger] out[k] == if has_timeline(cfg, chs[i + k]) {
                    style_block() + replaced(cfg, chs[i + k])
                } else {
                    replaced(cfg, chs[i + k])
                }
        }),
    decreases chs.len() - i,
{
    if i < chs.len() {
        let (c, n) = chapter_timelines(cfg, chs[i])->0;
        lemma_book_style(cfg, chs, i + 1, had || n > 0);
        let (rest, h) = book_from(cfg, chs, i + 1, had || n > 0)->0;
        let (out, h2) = book_from(cfg, chs, i, had)->0;
        assert forall|k: int| 0 <= k < out.len() implies #[trigger] out[k] == if has_timeline(
            cfg,
            chs[i + k],
        ) {
            style_block() + replaced(cfg, chs[i + k])
        } else {
            replaced(cfg, chs[i + k])
        } by {
            if k > 0 {
                assert(out[k] == rest[k - 1]);
                assert(chs[(i + 1) + (k - 1)] == chs[i + k]);
            }
        }
        if h {
            if !(had || n > 0) {
                let j = choose|j: int| i + 1 <= j < chs.len() && has_timeline(cfg, chs[j]);
                assert(i <= j < chs.len() && has_timeline(cfg, chs[j]));
            } else if n > 0 {
                assert(has_timeline(cfg, chs[i]));
            }
        } else {
            assert(!has_timeline(cfg, chs[i]));
            assert forall|j: int| i <= j < chs.len() implies !has_timeline(cfg, chs[j]) by {}
        }
    }
}

/// Each chapter that holds a timeline starts with the stylesheet, followed by
/// its content with its timelines replaced; every other chapter is its content
/// as it was. The book had a timeline exactly when some chapter holds one.
pub proof fn law_style_in_every_timeline_chapter(cfg: ConfigModel, chs: Seq<Seq<char>>)
    requires
        book_from(cfg, chs, 0, false) is Some,
    ensures
        ({
            let (out, had) = book_from(cfg, chs, 0, false)->0;
            &&& out.len() == chs.len()
            &&& had == exists|j: int| 0 <= j < chs.len() && has_timeline(cfg, chs[j])
            &&& forall|k: int|
                0 <= k < out.len() ==> #[trigger] out[k] == if has_timeline(cfg, chs[k]) {
                    style_block() + replaced(cfg, chs[k])
                } else {
                    replaced(cfg, chs[k])
                }
        }),
{
    lemma_book_style(cfg, chs, 0, false);
    let (out, had) = book_from(cfg, chs, 0, false)->0;
    assert forall|k: int| 0 <= k < out.len() implies #[trigger] out[k] == if has_timeline(cfg, chs[k]) {
        style_block() + replaced(cfg, chs[k])
    } else {
        replaced(cfg, chs[k])
    } by {
        assert(chs[0 + k] == chs[k]);
    }
}


proof fn lemma_replace_shift(cfg: ConfigModel, x: Seq<char>, y: Seq<char>, m: Seq<char>, i: int, c: nat)
    requires
        0 <= i <= y.len(),
    ensures
        replace_from(cfg, x + y, m, x.len() + i, c) == replace_from(cfg, y, m, i, c),
    decreases y.len() + 1 - i,
{
    let s = x + y;
    let d = x.len() as int;
    crate::text::lemma_find_shift(x, y, open_tag(m), i);
    lemma_block_span(y, m, i);
    if let Some(p) = find_from(y, open_tag(m), i) {
        crate::text::lemma_find_from(y, open_tag(m), i);
        crate::text::lemma_find_shift(x, y, close_tag(m), p + open_tag(m).len());
        if let Some(q) = find_from(y, close_tag(m), p + open_tag(m).len()) {
            assert(s.subrange(d + p + open_tag(m).len(), d + q) =~= y.subrange(p + open_tag(m).len(), q));
            assert(s.subrange(d + i, d + p) =~= y.subrange(i, p));
            lemma_replace_shift(cfg, x, y, m, q + close_tag(m).len(), c + 1);
        }
    } else {
        assert(s.subrange(d + i, s.len() as int) =~= y.subrange(i, y.len() as int));
    }
}

/// Replacing the blocks of a text that is some text `x`, one block of marker
/// `m` and a rest `y` keeps `x` as it is, puts the block's timeline after it,
/// and then gives `y` with its own blocks replaced, numbered on from the first
/// block. Here the block's opening tag is the first one in `x` and the tag, and
/// its closing tag is the first one in `body` and the tag. So no character
/// outside a block is lost or moved, between any two blocks as before the first.
pub proof fn law_replace_keeps_text_between_blocks(
    cfg: ConfigModel,
    x: Seq<char>,
    body: Seq<char>,
    y: Seq<char>,
    m: Seq<char>,
    c: nat,
)
    requires
        find_from(x + open_tag(m), open_tag(m), 0) == Some(x.len() as int),
        find_from(body + close_tag(m), close_tag(m), 0) == Some(body.len() as int),
    ensures
        replace_from(cfg, x + open_tag(m) + body + close_tag(m) + y, m, 0, c) == (if cfg.duration_gaps
            && !gaps_fit(block_entries(body)) {
            None
        } else {
            match replace_from(cfg, y, m, 0, c + 1) {
                None => None,
                Some((rest, n)) => Some((x + timeline_html_of(block_entries(body), c + 1, cfg) + rest, n)),
            }
        }),
{
    let o = open_tag(m);
    let cl = close_tag(m);
    let head = x + o;
    let tail = body + cl + y;
    let s = x + o + body + cl + y;
    assert(s =~= head + tail);
    crate::text::lemma_find_extend(head, tail, o, 0);
    assert(find_from(s, o, 0) == Some(x.len() as int));
    crate::text::lemma_find_extend(body + cl, y, cl, 0);
    assert(tail =~= (body + cl) + y);
    crate::text::lemma_find_shift(head, tail, cl, 0);
    assert(find_from(s, cl, (x.len() + o.len()) as int) == Some((x.len() + o.len() + body.len()) as int));
    let p = x.len() as int;
    let q = (x.len() + o.len() + body.len()) as int;
    assert(block_span(s, m, 0) == Some((p, q)));
    assert(s.subrange(0, p) =~= x);
    assert(s.subrange(p + o.len(), q) =~= body);
    let front = x + o + body + cl;
    assert(s =~= front + y);
    lemma_replace_shift(cfg, front, y, m, 0, c + 1);
    assert(q + cl.len() == front.len());
}

} // verus!
