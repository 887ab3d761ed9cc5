//! Rendering entries and timelines to HTML.
use vstd::prelude::*;
use crate::config::{ConfigModel, TimelineConfig};
use crate::entry::{entries_view, opt_view, EntryModel, TimelineEntry};
use crate::markdown::{desc_html_of, md_inline, md_inline_of, render_desc_html};
use crate::num::{decimal, decimal_chars, parse_i64, parse_i64_chars};
use crate::text::{from_chars, to_chars};

verus! {

/// Both labels are numbers whose difference fits in an `i64`, or one is not a number.
pub open spec fn gap_fits(a: Seq<char>, b: Seq<char>) -> bool {
    match (parse_i64(a), parse_i64(b)) {
        (Some(x), Some(y)) => i64::MIN <= x - y <= i64::MAX,
        _ => true,
    }
}

/// The duration between two labels when both are whole numbers: `< 1 Year` when the
/// first is not greater, `1 Year` for a difference of one, else the difference
/// followed by ` Years`.
pub open spec fn gap_label(a: Seq<char>, b: Seq<char>) -> Option<Seq<char>> {
    match (parse_i64(a), parse_i64(b)) {
        (Some(x), Some(y)) => Some(
            if x - y <= 0 {
                "< 1 Year"@
            } else if x - y == 1 {
                "1 Year"@
            } else {
                decimal((x - y) as nat) + " Years"@
            },
        ),
        _ => None,
    }
}

/// Whether the labels `a` and `b` satisfy `gap_fits`: they are not both numbers,
/// or their difference lies in the range of `i64`.
pub fn labels_gap_fit(a: &str, b: &str) -> (r: bool)
    ensures
        r == gap_fits(a@, b@),
{
    let x = parse_i64_chars(to_chars(a).as_slice());
    let y = parse_i64_chars(to_chars(b).as_slice());
    match (x, y) {
        (Some(x), Some(y)) => {
            let d: i128 = x as i128 - y as i128;
            i64::MIN as i128 <= d && d <= i64::MAX as i128
        },
        _ => true,
    }
}

/// The duration label between two entry labels.
pub fn compute_gap_label(a: &str, b: &str) -> (r: Option<String>)
    requires
        gap_fits(a@, b@),
    ensures
        match r {
            Some(s) => gap_label(a@, b@) == Some(s@),
            None => gap_label(a@, b@) is None,
        },
{
    let x = match parse_i64_chars(to_chars(a).as_slice()) {
        Some(x) => x,
        None => return None,
    };
    let y = match parse_i64_chars(to_chars(b).as_slice()) {
        Some(y) => y,
        None => return None,
    };
    let diff = x - y;
    if diff <= 0 {
        Some(from_chars(to_chars("< 1 Year").as_slice()))
    } else if diff == 1 {
        Some(from_chars(to_chars("1 Year").as_slice()))
    } else {
        let mut s = from_chars(decimal_chars(diff as u64).as_slice());
        s.append(" Years");
        Some(s)
    }
}

/// The company line: company and location, either one alone, or nothing.
pub open spec fn company_html_of(e: EntryModel) -> Seq<char> {
    match (e.company, e.location) {
        (Some(c), Some(l)) => "<div class=\"tl-company\">"@ + md_inline_of(c)
            + " <span class=\"tl-location\">\u{2022} "@ + md_inline_of(l) + "</span></div>"@,
        (Some(c), None) => "<div class=\"tl-company\">"@ + md_inline_of(c) + "</div>"@,
        (None, Some(l)) => "<div class=\"tl-company\"><span class=\"tl-location\">"@ + md_inline_of(l)
            + "</span></div>"@,
        (None, None) => seq![],
    }
}

/// One image of a card.
pub open spec fn image_html_of(img: (Seq<char>, Seq<char>)) -> Seq<char> {
    "<div class=\"tl-image\"><img src=\""@ + img.0 + "\" alt=\""@ + img.1 + "\" /></div>"@
}

/// The images of a card, in order.
pub open spec fn images_html_of(imgs: Seq<(Seq<char>, Seq<char>)>) -> Seq<char>
    decreases imgs.len(),
{
    if imgs.len() == 0 {
        seq![]
    } else {
        images_html_of(imgs.drop_last()) + image_html_of(imgs.last())
    }
}

/// One tag of a card.
pub open spec fn tag_html_of(tag: Seq<char>) -> Seq<char> {
    "<span class=\"tl-tag\">"@ + md_inline_of(tag) + "</span>"@
}

/// The tags of a card, in order.
pub open spec fn tag_spans_of(tags: Seq<Seq<char>>) -> Seq<char>
    decreases tags.len(),
{
    if tags.len() == 0 {
        seq![]
    } else {
        tag_spans_of(tags.drop_last()) + tag_html_of(tags.last())
    }
}

/// The tag row of a card, or nothing when it has no tag.
pub open spec fn tags_html_of(tags: Seq<Seq<char>>) -> Seq<char> {
    if tags.len() == 0 {
        seq![]
    } else {
        "<div class=\"tl-tags\">"@ + tag_spans_of(tags) + "</div>"@
    }
}

/// The title of a card: its inline HTML, or `Untitled`.
pub open spec fn title_html_of(e: EntryModel) -> Seq<char> {
    match e.title {
        Some(t) => md_inline_of(t),
        None => "Untitled"@,
    }
}

/// The HTML of one entry: its dot and label, then its card with title, active
/// badge, company line, description, images and tags.
#[verifier::opaque]
pub open spec fn entry_html_of(e: EntryModel) -> Seq<char> {
    "<div class=\"tl-entry"@ + (if e.active {
        " active"@
    } else {
        seq![]
    }) + "\"><div class=\"tl-label-wrap\"><span class=\"tl-label\">"@ + md_inline_of(e.label)
        + "</span></div><div class=\"tl-card\"><div class=\"tl-card-title\"><h3>"@ + title_html_of(e)
        + "</h3>"@ + (if e.active {
        "<span class=\"tl-badge-active\">Active</span>"@
    } else {
        seq![]
    }) + "</div>"@ + company_html_of(e) + (match e.desc {
        Some(d) => desc_html_of(d),
        None => seq![],
    }) + images_html_of(e.images) + tags_html_of(e.tags) + "</div></div>"@
}

fn company_html(entry: &TimelineEntry) -> (r: String)
    ensures
        r@ == company_html_of(entry@),
{
    let mut out = String::new();
    match (&entry.company, &entry.location) {
        (Some(c), Some(l)) => {
            out.append("<div class=\"tl-company\">");
            out.append(md_inline(c.as_str()).as_str());
            out.append(" <span class=\"tl-location\">\u{2022} ");
            out.append(md_inline(l.as_str()).as_str());
            out.append("</span></div>");
        },
        (Some(c), None) => {
            out.append("<div class=\"tl-company\">");
            out.append(md_inline(c.as_str()).as_str());
            out.append("</div>");
        },
        (None, Some(l)) => {
            out.append("<div class=\"tl-company\"><span class=\"tl-location\">");
            out.append(md_inline(l.as_str()).as_str());
            out.append("</span></div>");
        },
        (None, None) => {},
    }
    out
}

fn images_html(entry: &TimelineEntry) -> (r: String)
    ensures
        r@ == images_html_of(entry@.images),
{
    let ghost imgs = entry@.images;
    let n = entry.images.len();
    let mut out = String::new();
    let mut i: usize = 0;
    while i < n
        invariant
            i <= n == entry.images@.len(),
            imgs == entry@.images,
            imgs.len() == n,
            out@ == images_html_of(imgs.take(i as int)),
        decreases n - i,
    {
        assert(imgs.take(i + 1).drop_last() =~= imgs.take(i as int));
        out.append("<div class=\"tl-image\"><img src=\"");
        out.append(entry.images[i].0.as_str());
        out.append("\" alt=\"");
        out.append(entry.images[i].1.as_str());
        out.append("\" /></div>");
        i = i + 1;
    }
    assert(imgs.take(n as int) =~= imgs);
    out
}

fn tags_html(entry: &TimelineEntry) -> (r: String)
    ensures
        r@ == tags_html_of(entry@.tags),
{
    let ghost tags = entry@.tags;
    let n = entry.tags.len();
    let mut out = String::new();
    if n == 0 {
        return out;
    }
    out.append("<div class=\"tl-tags\">");
    let ghost start = out@;
    let mut i: usize = 0;
    while i < n
        invariant
            i <= n == entry.tags@.len(),
            tags == entry@.tags,
            tags.len() == n,
            out@ == start + tag_spans_of(tags.take(i as int)),
        decreases n - i,
    {
        assert(tags.take(i + 1).drop_last() =~= tags.take(i as int));
        out.append("<span class=\"tl-tag\">");
        out.append(md_inline(entry.tags[i].as_str()).as_str());
        out.append("</span>");
        i = i + 1;
    }
    assert(tags.take(n as int) =~= tags);
    out.append("</div>");
    out
}

/// Renders one entry to HTML. Markdown in its fields is rendered here, so the
/// parsed values stay as they were written.
pub fn render_entry(entry: &TimelineEntry) -> (r: String)
    ensures
        r@ == entry_html_of(entry@),
{
    reveal(entry_html_of);
    let mut out = String::new();
    out.append("<div class=\"tl-entry");
    if entry.active {
        out.append(" active");
    }
    out.append("\"><div class=\"tl-label-wrap\"><span class=\"tl-label\">");
    out.append(md_inline(entry.label.as_str()).as_str());
    out.append("</span></div><div class=\"tl-card\"><div class=\"tl-card-title\"><h3>");
    match &entry.title {
        Some(t) => {
            out.append(md_inline(t.as_str()).as_str());
        },
        None => {
            out.append("Untitled");
        },
    }
    out.append("</h3>");
    if entry.active {
        out.append("<span class=\"tl-badge-active\">Active</span>");
    }
    out.append("</div>");
    out.append(company_html(entry).as_str());
    match &entry.desc {
        Some(d) => {
            out.append(render_desc_html(d.as_str()).as_str());
        },
        None => {},
    }
    out.append(images_html(entry).as_str());
    out.append(tags_html(entry).as_str());
    out.append("</div></div>");
    out
}

/// The duration marker between entries `a` and `b` at position `idx`, or nothing
/// when their labels are not both numbers.
pub open spec fn gap_html_of(a: EntryModel, b: EntryModel, idx: nat) -> Seq<char> {
    let label = match gap_label(a.label, b.label) {
        Some(l) => l,
        None => seq![],
    };
    if label.len() == 0 {
        seq![]
    } else {
        "<div class=\"tl-duration-gap\" data-gap=\""@ + decimal(idx) + "\" data-label=\""@ + label
            + "\"></div>"@
    }
}

/// Every two neighbouring labels of `es` satisfy `gap_fits`.
pub open spec fn gaps_fit(es: Seq<EntryModel>) -> bool {
    forall|i: int| 0 <= i < es.len() - 1 ==> gap_fits(#[trigger] es[i].label, es[i + 1].label)
}

/// The HTML of the first `k` entries of `es`, each followed by its duration
/// marker when `gaps` is on and another entry follows it.
#[verifier::opaque]
pub open spec fn entries_html_of(es: Seq<EntryModel>, gaps: bool, k: int) -> Seq<char>
    decreases k,
{
    if k <= 0 {
        seq![]
    } else {
        entries_html_of(es, gaps, k - 1) + entry_html_of(es[k - 1]) + (if gaps && k < es.len() {
            gap_html_of(es[k - 1], es[k], (k - 1) as nat)
        } else {
            seq![]
        })
    }
}

/// The HTML of a timeline with number `id`: the `before` text and a line break,
/// the `tl` container holding its entries, then a line break and the `after` text.
pub open spec fn timeline_html_of(es: Seq<EntryModel>, id: nat, cfg: ConfigModel) -> Seq<char> {
    (match cfg.before {
        Some(b) => b + "\n"@,
        None => seq![],
    }) + "<div class=\"tl\" id=\"tl-"@ + decimal(id) + "\">"@ + entries_html_of(
        es,
        cfg.duration_gaps,
        es.len() as int,
    ) + "</div>"@ + (match cfg.after {
        Some(a) => "\n"@ + a,
        None => seq![],
    })
}

/// Renders the duration marker between two neighbouring entries.
pub fn render_gap(a: &TimelineEntry, b: &TimelineEntry, idx: usize) -> (r: String)
    requires
        gap_fits(a.label@, b.label@),
    ensures
        r@ == gap_html_of(a@, b@, idx as nat),
{
    let label = match compute_gap_label(a.label.as_str(), b.label.as_str()) {
        Some(l) => l,
        None => String::new(),
    };
    let lv = to_chars(label.as_str());
    if lv.len() == 0 {
        return String::new();
    }
    let mut out = String::new();
    out.append("<div class=\"tl-duration-gap\" data-gap=\"");
    out.append(from_chars(decimal_chars(idx as u64).as_slice()).as_str());
    out.append("\" data-label=\"");
    out.append(label.as_str());
    out.append("\"></div>");
    out
}

/// Renders a timeline of the given entries with number `id`.
#[verifier::rlimit(30)]
pub fn render_timeline(entries: &Vec<TimelineEntry>, id: usize, config: &TimelineConfig) -> (r: String)
    requires
        config@.duration_gaps ==> gaps_fit(entries_view(entries@)),
    ensures
        r@ == timeline_html_of(entries_view(entries@), id as nat, config@),
{
    let ghost es = entries_view(entries@);
    let mut html = String::new();
    match config.before() {
        Some(b) => {
            html.append(b.as_str());
            html.append("\n");
        },
        None => {},
    }
    html.append("<div class=\"tl\" id=\"tl-");
    html.append(from_chars(decimal_chars(id as u64).as_slice()).as_str());
    html.append("\">");
    let gaps = config.duration_gaps();
    let ghost start = html@;
    let n = entries.len();
    let mut i: usize = 0;
    proof {
        reveal(entries_html_of);
    }
    while i < n
        invariant
            i <= n == entries@.len(),
            es == entries_view(entries@),
            es.len() == n,
            gaps == config@.duration_gaps,
            gaps ==> gaps_fit(es),
            html@ == start + entries_html_of(es, gaps, i as int),
        decreases n - i,
    {
        reveal(entries_html_of);
        html.append(render_entry(&entries[i]).as_str());
        if gaps && i + 1 < n {
            html.append(render_gap(&entries[i], &entries[i + 1], i).as_str());
        }
        i = i + 1;
    }
    html.append("</div>");
    match config.after() {
        Some(a) => {
            html.append("\n");
            html.append(a.as_str());
        },
        None => {},
    }
    html
}

proof fn lemma_decimal_nonempty(n: nat)
    ensures
        decimal(n).len() > 0,
    decreases n,
{
    if n >= 10 {
        lemma_decimal_nonempty(n / 10);
    }
}

/// A duration marker stands between two entries exactly when both labels are
/// whole numbers (in the range of `i64`).
pub proof fn law_gap_marker_iff_numeric_labels(a: EntryModel, b: EntryModel, idx: nat)
    ensures
        gap_html_of(a, b, idx).len() > 0 <==> (parse_i64(a.label) is Some && parse_i64(b.label) is Some),
{
    reveal_strlit("< 1 Year");
    reveal_strlit("1 Year");
    reveal_strlit("<div class=\"tl-duration-gap\" data-gap=\"");
    if let (Some(x), Some(y)) = (parse_i64(a.label), parse_i64(b.label)) {
        if x - y > 1 {
            lemma_decimal_nonempty((x - y) as nat);
        }
    }
}


/// The images of a card are rendered in the order they were written: the HTML of
/// two runs of images is the HTML of the first followed by that of the second,
/// and a single image gives its own HTML.
pub proof fn law_images_in_order(
    xs: Seq<(Seq<char>, Seq<char>)>,
    ys: Seq<(Seq<char>, Seq<char>)>,
    y: (Seq<char>, Seq<char>),
)
    ensures
        images_html_of(xs + ys) == images_html_of(xs) + images_html_of(ys),
        images_html_of(seq![y]) == image_html_of(y),
    decreases ys.len(),
{
    assert(seq![y].drop_last() =~= Seq::<(Seq<char>, Seq<char>)>::empty());
    assert(seq![y].last() == y);
    assert(Seq::<char>::empty() + image_html_of(y) =~= image_html_of(y));
    assert(images_html_of(Seq::<(Seq<char>, Seq<char>)>::empty()) == Seq::<char>::empty());
    assert(images_html_of(seq![y]) == images_html_of(seq![y].drop_last()) + image_html_of(y));
    if ys.len() > 0 {
        law_images_in_order(xs, ys.drop_last(), y);
        assert((xs + ys).drop_last() =~= xs + ys.drop_last());
        assert((xs + ys).last() == ys.last());
    } else {
        assert(xs + ys =~= xs);
    }
}

/// The tags of a card are rendered in the order they were written: the spans of
/// two runs of tags are the spans of the first followed by those of the second,
/// and a single tag gives its own span.
pub proof fn law_tags_in_order(xs: Seq<Seq<char>>, ys: Seq<Seq<char>>, y: Seq<char>)
    ensures
        tag_spans_of(xs + ys) == tag_spans_of(xs) + tag_spans_of(ys),
        tag_spans_of(seq![y]) == tag_html_of(y),
    decreases ys.len(),
{
    assert(seq![y].drop_last() =~= Seq::<Seq<char>>::empty());
    assert(seq![y].last() == y);
    assert(Seq::<char>::empty() + tag_html_of(y) =~= tag_html_of(y));
    assert(tag_spans_of(Seq::<Seq<char>>::empty()) == Seq::<char>::empty());
    assert(tag_spans_of(seq![y]) == tag_spans_of(seq![y].drop_last()) + tag_html_of(y));
    if ys.len() > 0 {
        law_tags_in_order(xs, ys.drop_last(), y);
        assert((xs + ys).drop_last() =~= xs + ys.drop_last());
        assert((xs + ys).last() == ys.last());
    } else {
        assert(xs + ys =~= xs);
    }
}


proof fn lemma_entries_html_front(xs: Seq<EntryModel>, ys: Seq<EntryModel>, k: int)
    requires
        0 <= k <= xs.len(),
    ensures
        entries_html_of(xs + ys, false, k) == entries_html_of(xs, false, k),
    decreases k,
{
    reveal(entries_html_of);
    if k > 0 {
        lemma_entries_html_front(xs, ys, k - 1);
        assert((xs + ys)[k - 1] == xs[k - 1]);
    }
}

proof fn lemma_entries_html_back(xs: Seq<EntryModel>, ys: Seq<EntryModel>, k: int)
    requires
        0 <= k <= ys.len(),
    ensures
        entries_html_of(xs + ys, false, xs.len() + k) == entries_html_of(xs, false, xs.len() as int)
            + entries_html_of(ys, false, k),
    decreases k,
{
    reveal(entries_html_of);
    if k == 0 {
        lemma_entries_html_front(xs, ys, xs.len() as int);
        assert(entries_html_of(ys, false, 0) == Seq::<char>::empty());
        assert(entries_html_of(xs, false, xs.len() as int) + Seq::<char>::empty()
            =~= entries_html_of(xs, false, xs.len() as int));
    } else {
        lemma_entries_html_back(xs, ys, k - 1);
        assert((xs + ys)[xs.len() + k - 1] == ys[k - 1]);
        let a = entries_html_of(xs, false, xs.len() as int);
        let b = entries_html_of(ys, false, k - 1);
        let c = entry_html_of(ys[k - 1]);
        assert(entries_html_of(xs + ys, false, xs.len() + k) == a + b + c + Seq::<char>::empty());
        assert(entries_html_of(ys, false, k) == b + c + Seq::<char>::empty());
        assert(a + b + c + Seq::<char>::empty() =~= a + (b + c + Seq::<char>::empty()));
    }
}

/// With duration labels off, every entry is rendered, in the order given, with
/// nothing between them: the HTML of two runs of entries is the HTML of the
/// first followed by that of the second, and one entry gives its own HTML.
pub proof fn law_entries_in_order_without_gaps(xs: Seq<EntryModel>, ys: Seq<EntryModel>, e: EntryModel)
    ensures
        entries_html_of(xs + ys, false, (xs + ys).len() as int) == entries_html_of(
            xs,
            false,
            xs.len() as int,
        ) + entries_html_of(ys, false, ys.len() as int),
        entries_html_of(seq![e], false, 1) == entry_html_of(e),
{
    reveal(entries_html_of);
    lemma_entries_html_back(xs, ys, ys.len() as int);
    assert(entries_html_of(seq![e], false, 0) == Seq::<char>::empty());
    assert(seq![e][0] == e);
    assert(Seq::<char>::empty() + entry_html_of(e) + Seq::<char>::empty() =~= entry_html_of(e));
}

proof fn lemma_entries_html_prefix(es: Seq<EntryModel>, gaps: bool, j: int, k: int)
    requires
        0 <= j <= k,
    ensures
        entries_html_of(es, gaps, j).len() <= entries_html_of(es, gaps, k).len(),
        entries_html_of(es, gaps, k).take(entries_html_of(es, gaps, j).len() as int) == entries_html_of(
            es,
            gaps,
            j,
        ),
    decreases k - j,
{
    reveal(entries_html_of);
    if j == k {
        assert(entries_html_of(es, gaps, k).take(entries_html_of(es, gaps, j).len() as int)
            =~= entries_html_of(es, gaps, j));
    } else {
        lemma_entries_html_prefix(es, gaps, j, k - 1);
        let d = entry_html_of(es[k - 1]) + (if gaps && k < es.len() {
            gap_html_of(es[k - 1], es[k], (k - 1) as nat)
        } else {
            seq![]
        });
        assert(entries_html_of(es, gaps, k) == entries_html_of(es, gaps, k - 1) + d);
        assert(entries_html_of(es, gaps, k).take(entries_html_of(es, gaps, j).len() as int)
            =~= entries_html_of(es, gaps, k - 1).take(entries_html_of(es, gaps, j).len() as int));
    }
}

/// The HTML of two neighbouring entries with, when duration labels are on, the
/// duration marker between them.
pub open spec fn neighbours_html(es: Seq<EntryModel>, i: int) -> Seq<char> {
    entry_html_of(es[i]) + gap_html_of(es[i], es[i + 1], i as nat) + entry_html_of(es[i + 1])
}

/// `w` stands in `h` from position `p` on.
pub open spec fn holds_at(h: Seq<char>, w: Seq<char>, p: int) -> bool {
    0 <= p && p + w.len() <= h.len() && h.subrange(p, p + w.len()) == w
}

proof fn lemma_neighbours_in_entries(es: Seq<EntryModel>, i: int)
    requires
        0 <= i,
        i + 1 < es.len(),
    ensures
        holds_at(entries_html_of(es, true, es.len() as int), neighbours_html(es, i), entries_html_of(
            es,
            true,
            i,
        ).len() as int),
{
    reveal(entries_html_of);
    let n = es.len() as int;
    lemma_entries_html_prefix(es, true, i + 2, n);
    let whole = entries_html_of(es, true, n);
    let tail: Seq<char> = if i + 2 < n {
        gap_html_of(es[i + 1], es[i + 2], (i + 1) as nat)
    } else {
        seq![]
    };
    let front = entries_html_of(es, true, i);
    assert(entries_html_of(es, true, i + 1) == front + entry_html_of(es[i]) + gap_html_of(
        es[i],
        es[i + 1],
        i as nat,
    ));
    assert(entries_html_of(es, true, i + 2) == entries_html_of(es, true, i + 1) + entry_html_of(
        es[i + 1],
    ) + tail);
    assert(entries_html_of(es, true, i + 2) =~= front + neighbours_html(es, i) + tail);
    let e2 = entries_html_of(es, true, i + 2);
    let q = front.len() as int;
    let w = neighbours_html(es, i);
    assert(whole.take(e2.len() as int) == e2);
    assert(e2.subrange(q, q + w.len()) =~= w);
    assert(whole.subrange(q, q + w.len()) =~= e2.subrange(q, q + w.len()));
}

/// With duration labels on, every entry but the last is followed directly by
/// the duration marker computed from it and its successor, and then by that
/// successor: the timeline's HTML holds each such stretch.
pub proof fn law_gap_between_every_neighbour_pair(es: Seq<EntryModel>, id: nat, cfg: ConfigModel, i: int)
    requires
        cfg.duration_gaps,
        0 <= i,
        i + 1 < es.len(),
    ensures
        exists|p: int| #[trigger] holds_at(timeline_html_of(es, id, cfg), neighbours_html(es, i), p),
{
    lemma_neighbours_in_entries(es, i);
    let pre = (match cfg.before {
        Some(b) => b + "\n"@,
        None => seq![],
    }) + "<div class=\"tl\" id=\"tl-"@ + decimal(id) + "\">"@;
    let post = "</div>"@ + (match cfg.after {
        Some(a) => "\n"@ + a,
        None => seq![],
    });
    let body = entries_html_of(es, true, es.len() as int);
    let h = timeline_html_of(es, id, cfg);
    assert(h == pre + body + post);
    let q = entries_html_of(es, true, i).len() as int;
    let w = neighbours_html(es, i);
    assert(h.subrange(pre.len() + q, pre.len() + q + w.len()) =~= body.subrange(q, q + w.len()));
    assert(holds_at(h, w, pre.len() + q));
}

} // verus!
