//! Markdown rendering of card text through pulldown-cmark.
use vstd::prelude::*;
use crate::text::{find, find_from, from_chars, to_chars, trim, trimmed};

verus! {

/// What pulldown-cmark's `html::push_html` appends to an empty buffer for the
/// events that `Parser::new_ext` yields on `text` with the GFM strikethrough
/// extension on. It depends on the text alone.
pub uninterp spec fn cmark_html(text: Seq<char>) -> Seq<char>;

/// Renders `text` with pulldown-cmark (`Parser::new_ext` with
/// `Options::ENABLE_STRIKETHROUGH`, then `html::push_html` into a new string).
/// The contract claims only that the result is the one named `cmark_html`;
/// the markdown rules themselves are left to pulldown-cmark.
#[verifier::external_body]
fn cmark_to_html(text: &str) -> (r: String)
    ensures
        r@ == cmark_html(text@),
{
    let mut options = pulldown_cmark::Options::empty();
    options.insert(pulldown_cmark::Options::ENABLE_STRIKETHROUGH);
    let mut buf = String::new();
    pulldown_cmark::html::push_html(&mut buf, pulldown_cmark::Parser::new_ext(text, options));
    buf
}

/// The HTML of `text`: the trimmed text rendered as markdown, trimmed.
pub open spec fn md_html_of(text: Seq<char>) -> Seq<char> {
    trim(cmark_html(trim(text)))
}

/// `<p>`
pub open spec fn p_open() -> Seq<char> {
    seq!['<', 'p', '>']
}

/// `</p>`
pub open spec fn p_close() -> Seq<char> {
    seq!['<', '/', 'p', '>']
}

/// `s` begins with `p`.
pub open spec fn has_prefix(s: Seq<char>, p: Seq<char>) -> bool {
    p.len() <= s.len() && s.take(p.len() as int) == p
}

/// `s` ends with `p`.
pub open spec fn has_suffix(s: Seq<char>, p: Seq<char>) -> bool {
    p.len() <= s.len() && s.skip(s.len() - p.len()) == p
}

/// `h` with a wrapping `<p>…</p>` taken off and what it wrapped trimmed;
/// other HTML as it is.
pub open spec fn unwrap_paragraph(h: Seq<char>) -> Seq<char> {
    if has_prefix(h, p_open()) && has_suffix(h, p_close()) {
        trim(h.subrange(3, h.len() - 4))
    } else {
        h
    }
}

/// The inline HTML of `text`: its HTML without a wrapping paragraph.
pub open spec fn md_inline_of(text: Seq<char>) -> Seq<char> {
    unwrap_paragraph(md_html_of(text))
}

/// The number of non-overlapping `<p>` in `s` from position `from` on.
pub open spec fn p_count_from(s: Seq<char>, from: int) -> nat
    decreases s.len() + 1 - from,
{
    if from < 0 {
        0
    } else {
        match find_from(s, p_open(), from) {
            None => 0,
            Some(k) => {
                proof {
                    crate::text::lemma_find_from(s, p_open(), from);
                }
                1 + p_count_from(s, k + 3)
            },
        }
    }
}

/// The HTML of a description: a `<p class="tl-desc">` around its inline HTML when
/// its HTML holds at most one `<p>`, else a `<div class="tl-desc">` around its HTML.
pub open spec fn desc_html_of(desc: Seq<char>) -> Seq<char> {
    let h = md_html_of(desc);
    if p_count_from(h, 0) <= 1 {
        "<p class=\"tl-desc\">"@ + md_inline_of(desc) + "</p>"@
    } else {
        "<div class=\"tl-desc\">"@ + h + "</div>"@
    }
}

/// Renders markdown to HTML, paragraphs included, with strikethrough enabled.
pub fn md_html(text: &str) -> (r: String)
    ensures
        r@ == md_html_of(text@),
{
    let t = from_chars(trimmed(to_chars(text).as_slice()).as_slice());
    let h = cmark_to_html(t.as_str());
    from_chars(trimmed(to_chars(h.as_str()).as_slice()).as_slice())
}

fn p_open_chars() -> (r: Vec<char>)
    ensures
        r@ == p_open(),
{
    vec!['<', 'p', '>']
}

fn p_close_chars() -> (r: Vec<char>)
    ensures
        r@ == p_close(),
{
    vec!['<', '/', 'p', '>']
}

/// Takes off the `<p>…</p>` that wraps an HTML fragment, trimming what it wrapped.
pub fn unwrap_paragraph_html(html: &str) -> (r: String)
    ensures
        r@ == unwrap_paragraph(html@),
{
    let hv = to_chars(html);
    let n = hv.len();
    let po = p_open_chars();
    let pc = p_close_chars();
    let wrapped = n >= 4 && crate::text::matches_at(hv.as_slice(), po.as_slice(), 0)
        && crate::text::matches_at(hv.as_slice(), pc.as_slice(), n - 4);
    if wrapped {
        let inner = crate::text::slice_to_vec(hv.as_slice(), 3, n - 4);
        from_chars(trimmed(inner.as_slice()).as_slice())
    } else {
        from_chars(hv.as_slice())
    }
}

/// Converts markdown to inline HTML, unwrapping the single `<p>…</p>` that
/// wraps a text fragment.
pub fn md_inline(text: &str) -> (r: String)
    ensures
        r@ == md_inline_of(text@),
{
    let h = md_html(text);
    unwrap_paragraph_html(h.as_str())
}

/// The number of non-overlapping `<p>` in `html`.
pub fn paragraph_count(html: &str) -> (r: usize)
    ensures
        r == p_count_from(html@, 0),
{
    let chars = to_chars(html);
    let s = chars.as_slice();
    let po = p_open_chars();
    let n = s.len();
    let mut pos: usize = 0;
    let mut count: usize = 0;
    loop
        invariant
            pos <= n == s@.len(),
            s@ == html@,
            po@ == p_open(),
            count + p_count_from(s@, pos as int) == p_count_from(s@, 0),
            count <= pos,
        decreases n - pos,
    {
        match find(s, po.as_slice(), pos) {
            None => {
                return count;
            },
            Some(k) => {
                proof {
                    crate::text::lemma_find_from(s@, p_open(), pos as int);
                }
                count = count + 1;
                pos = k + 3;
            },
        }
    }
}

/// Renders a description: one paragraph stays a `<p class="tl-desc">`, several
/// are wrapped in a `<div class="tl-desc">`.
pub fn render_desc_html(desc: &str) -> (r: String)
    ensures
        r@ == desc_html_of(desc@),
{
    let h = md_html(desc);
    if paragraph_count(h.as_str()) <= 1 {
        let mut out = String::new();
        out.append("<p class=\"tl-desc\">");
        let inline = md_inline(desc);
        out.append(inline.as_str());
        out.append("</p>");
        out
    } else {
        let mut out = String::new();
        out.append("<div class=\"tl-desc\">");
        out.append(h.as_str());
        out.append("</div>");
        out
    }
}

} // verus!
