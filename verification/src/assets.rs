//! The stylesheet and script that every book with a timeline carries.
use vstd::prelude::*;

verus! {

/// Theme-aware styles for timelines, built on mdBook's CSS variables.
pub const TIMELINE_CSS: &'static str = r#"
/* ═══════════════════════════════════════════════════════════════════
   mdBook Timeline — theme-aware via mdBook CSS custom properties
   ═══════════════════════════════════════════════════════════════════ */

.tl {
    position: relative;
    padding: 0 48px;
    width: calc(100% + 280px);
    max-width: 1280px;
    margin: 32px 0 32px -200px;
    font-size: inherit;
}

.tl::before {
    content: "";
    position: absolute;
    left: 120px;
    top: 0;
    bottom: 0;
    width: 1px;
    background: var(--fg);
    opacity: 0.15;
}

.tl-entry {
    display: grid;
    grid-template-columns: 56px 1fr;
    gap: 0 32px;
    align-items: start;
    position: relative;
}

.tl-entry::before {
    content: "";
    width: 9px;
    height: 9px;
    border-radius: 50%;
    background: var(--fg);
    opacity: 0.25;
    position: absolute;
    left: 72px;
    transform: translateX(-50%);
    top: 30px;
    z-index: 1;
    transition: background 0.25s ease, box-shadow 0.25s ease;
}

.tl-entry.active::before {
    background: var(--links, #20609f);
    opacity: 1;
    box-shadow: 0 0 0 3px rgba(32, 96, 159, 0.2);
}

.tl-entry.hovered::before {
    background: var(--links, #20609f);
    opacity: 1;
    box-shadow: 0 0 0 3px rgba(128,128,128,0.15);
    animation: tl-dot-pulse 0.8s ease-in-out infinite;
}

@keyframes tl-dot-pulse {
    0%, 100% { box-shadow: 0 0 0 3px rgba(128,128,128,0.15); }
    50% { box-shadow: 0 0 0 8px rgba(128,128,128,0.20); }
}

.tl-label-wrap {
    display: flex;
    align-items: flex-start;
    justify-content: flex-end;
    padding-top: 26px;
    padding-right: 16px;
}

.tl-label {
    font-size: inherit;
    opacity: 0.55;
    letter-spacing: 0.04em;
    color: var(--fg);
}

.tl-card {
    background: var(--theme-popup-bg, var(--bg, #fafafa));
    border: 1px solid var(--theme-popup-border, rgba(0,0,0,0.12));
    border-radius: 10px;
    padding: 28px 32px;
    position: relative;
}

.tl-card .tl-years-ago {
    position: absolute;
    bottom: 14px;
    right: 18px;
    font-size: inherit;
    opacity: 0;
    transition: opacity 0.25s ease;
    pointer-events: none;
    letter-spacing: 0.03em;
    color: var(--fg);
}

.tl-entry.hovered .tl-card .tl-years-ago { opacity: 0.45; }

.tl-card-title {
    display: flex;
    justify-content: space-between;
    align-items: flex-start;
    gap: 16px;
    margin-bottom: 8px;
}

.tl-card-title h3 {
    font-size: 1.5rem;
    font-weight: 700;
    color: var(--fg);
    margin: 0;
}

.tl-badge-active {
    display: inline-flex;
    align-items: center;
    gap: 6px;
    font-size: inherit;
    font-weight: 500;
    letter-spacing: 0.08em;
    text-transform: uppercase;
    color: var(--links, #20609f);
    border: 1px solid var(--links, #20609f);
    border-radius: 20px;
    padding: 4px 10px;
    white-space: nowrap;
    flex-shrink: 0;
}

.tl-badge-active::before {
    content: "";
    width: 6px;
    height: 6px;
    border-radius: 50%;
    background: var(--links, #20609f);
}

.tl-company { font-size: inherit; opacity: 0.7; margin-bottom: 14px; color: var(--fg); }
.tl-company .tl-location { opacity: 0.6; }

.tl-desc {
    font-size: inherit;
    opacity: 0.8;
    line-height: 1.75;
    margin-bottom: 20px;
    color: var(--fg);
}

/* Paragraphs inside a multi-line description keep the card's line-height. */
.tl-desc p { margin: 0 0 12px 0; line-height: 1.75; }
.tl-desc p:last-child { margin-bottom: 0; }

.tl-image {
    width: 100%;
    border-radius: 6px;
    overflow: hidden;
    margin-bottom: 18px;
}

.tl-image img {
    width: 100%;
    height: 180px;
    object-fit: cover;
    display: block;
}

.tl-tags { display: flex; flex-wrap: wrap; gap: 8px; }

.tl-tag {
    font-size: inherit;
    opacity: 0.7;
    background: var(--theme-popup-bg, var(--bg));
    border: 1px solid var(--theme-popup-border, rgba(0,0,0,0.15));
    border-radius: 4px;
    padding: 4px 10px;
    letter-spacing: 0.02em;
    color: var(--fg);
}

.tl-duration-gap { margin-bottom: 32px; }

.tl-duration-label {
    position: absolute;
    font-size: inherit;
    letter-spacing: 0.12em;
    text-transform: uppercase;
    opacity: 0.45;
    writing-mode: vertical-rl;
    transform: translateX(-50%) translateY(-50%) rotate(180deg);
    z-index: 2;
    pointer-events: none;
    color: var(--fg);
}

.tl.dimmed .tl-entry { opacity: 0.3; transition: opacity 0.25s ease; }
.tl.dimmed .tl-entry.hovered { opacity: 1; }
.tl.dimmed .tl-duration-label { opacity: 0.15; }
.tl.dimmed .tl-duration-label.keep { opacity: 0.45 !important; }
"#;

/// Hover effects, "years ago" labels and the placing of duration labels.
pub const TIMELINE_JS: &'static str = r#"
(function () {
    var currentYear = new Date().getFullYear();

    document.querySelectorAll(".tl").forEach(function (timeline) {
        var entries = timeline.querySelectorAll(".tl-entry");
        var hasGaps = timeline.querySelector(".tl-duration-gap") !== null;

        entries.forEach(function (entry, idx) {
            entry.addEventListener("mouseenter", function () {
                timeline.classList.add("dimmed");
                entry.classList.add("hovered");
                var labels = timeline.querySelectorAll(".tl-duration-label");
                labels.forEach(function (lbl, li) {
                    lbl.classList.toggle("keep", li === idx - 1 || li === idx);
                });
            });
            entry.addEventListener("mouseleave", function () {
                timeline.classList.remove("dimmed");
                entry.classList.remove("hovered");
                var labels = timeline.querySelectorAll(".tl-duration-label");
                labels.forEach(function (lbl) { lbl.classList.remove("keep"); });
            });
        });

        entries.forEach(function (entry) {
            var labelEl = entry.querySelector(".tl-label");
            var text = labelEl ? labelEl.textContent.trim() : "";
            var yr = parseInt(text, 10);
            if (!isNaN(yr) && yr > 0 && text === String(yr)) {
                var diff = currentYear - yr;
                var ago = diff === 0 ? "This year" : diff === 1 ? "1 year ago" : diff + " years ago";
                var span = document.createElement("span");
                span.className = "tl-years-ago";
                span.textContent = ago;
                var card = entry.querySelector(".tl-card");
                if (card) card.appendChild(span);
            }
        });

        if (!hasGaps) return;
        requestAnimationFrame(function () {
            requestAnimationFrame(function () {
                var gaps = timeline.querySelectorAll(".tl-duration-gap");
                var containerTop = timeline.getBoundingClientRect().top;
                var DOT = 30 + 4.5;
                for (var i = 0; i < gaps.length; i++) {
                    var a = entries[i];
                    var b = entries[i + 1];
                    if (!a || !b) continue;
                    var label = gaps[i].getAttribute("data-label");
                    if (!label) continue;
                    var topA = a.getBoundingClientRect().top - containerTop + DOT;
                    var topB = b.getBoundingClientRect().top - containerTop + DOT;
                    var mid = (topA + topB) / 2;
                    var span = document.createElement("span");
                    span.className = "tl-duration-label";
                    span.textContent = label;
                    span.style.left = "120px";
                    span.style.top = mid + "px";
                    timeline.appendChild(span);
                }
            });
        });
    });
})();
"#;

} // verus!
