//! The HTML page of the preview around the rendered markdown body: theme
//! CSS, base URL for relative links, Mermaid scripts and the image
//! interaction script.

use vstd::prelude::*;

use crate::html;
use crate::html::{html_escape, uri_escape};
use crate::text;
use crate::images;
use crate::text::{chars_of, push_str, replace_str, string_from_chars};

verus! {

/// The application's name, the title of an untitled page.
pub const APP_NAME: &'static str = "RenderMD";

pub const PREVIEW_CSS_LIGHT: &'static str = r#"
:root {
  --bg: #ffffff;
  --fg: #1f2328;
  --muted: #59636e;
  --accent: #0969da;
  --border: #d1d9e0;
  --code-bg: #f6f8fa;
  --code-fg: #1f2328;
  --kbd-bg: #f6f8fa;
  --table-stripe: #f6f8fa;
  --quote-bg: #f6f8fa;
  --quote-bar: #d1d9e0;
  --alert-note: #0969da;
  --alert-tip: #1a7f37;
  --alert-important: #8250df;
  --alert-warning: #9a6700;
  --alert-caution: #cf222e;
  --change: #d4a017;
}
"#;

pub const PREVIEW_CSS_DARK: &'static str = r#"
:root {
  --bg: #1e1e2e;
  --fg: #e6edf3;
  --muted: #9da7b1;
  --accent: #79b8ff;
  --border: #30363d;
  --code-bg: #161b22;
  --code-fg: #e6edf3;
  --kbd-bg: #161b22;
  --table-stripe: #161b22;
  --quote-bg: #161b22;
  --quote-bar: #30363d;
  --alert-note: #79b8ff;
  --alert-tip: #3fb950;
  --alert-important: #a371f7;
  --alert-warning: #d29922;
  --alert-caution: #f85149;
  --change: #e3b341;
}
"#;

pub const PREVIEW_CSS_BASE: &'static str = r#"
* { box-sizing: border-box; }
html, body {
  margin: 0;
  padding: 0;
  background: var(--bg);
  color: var(--fg);
}
body {
  font-family: -apple-system, "Inter", "Cantarell", "Noto Sans",
               "Segoe UI", system-ui, sans-serif;
  font-size: 16px;
  line-height: 1.65;
  padding: 48px max(48px, 8vw) 96px;
  max-width: 980px;
  margin: 0 auto;
  word-wrap: break-word;
}
h1, h2, h3, h4, h5, h6 {
  font-weight: 600;
  line-height: 1.25;
  margin-top: 1.6em;
  margin-bottom: 0.6em;
}
h1 { font-size: 2.1em; padding-bottom: 0.3em; border-bottom: 1px solid var(--border); }
h2 { font-size: 1.55em; padding-bottom: 0.3em; border-bottom: 1px solid var(--border); }
h3 { font-size: 1.25em; }
h4 { font-size: 1.05em; }
h5 { font-size: 0.95em; }
h6 { font-size: 0.88em; color: var(--muted); }
p, ul, ol, blockquote, pre, table { margin: 0 0 1em 0; }
a { color: var(--accent); text-decoration: none; }
a:hover { text-decoration: underline; }
strong { font-weight: 600; }
hr {
  border: 0;
  border-top: 1px solid var(--border);
  margin: 2em 0;
}
ul, ol { padding-left: 2em; }
li + li { margin-top: 0.25em; }
li > p { margin: 0.5em 0; }
ul.contains-task-list { list-style: none; padding-left: 1em; }
ul.contains-task-list li.task-list-item { position: relative; padding-left: 0.25em; }
input.task-list-item-checkbox { margin-right: 0.5em; }

blockquote {
  margin: 1em 0;
  padding: 0.5em 1em;
  background: var(--quote-bg);
  border-left: 4px solid var(--quote-bar);
  color: var(--muted);
  border-radius: 4px;
}
blockquote > :last-child { margin-bottom: 0; }

code, kbd, samp, pre {
  font-family: "JetBrains Mono", "Fira Code", "Source Code Pro",
               "Cascadia Code", monospace;
  font-size: 0.92em;
}
:not(pre) > code {
  background: var(--code-bg);
  color: var(--code-fg);
  padding: 0.18em 0.42em;
  border-radius: 6px;
  border: 1px solid var(--border);
}
pre {
  background: var(--code-bg);
  color: var(--code-fg);
  border: 1px solid var(--border);
  border-radius: 8px;
  padding: 14px 18px;
  overflow-x: auto;
  line-height: 1.55;
}
pre code { background: none; border: 0; padding: 0; }

kbd {
  background: var(--kbd-bg);
  border: 1px solid var(--border);
  border-bottom-width: 2px;
  border-radius: 6px;
  padding: 0.1em 0.5em;
  font-size: 0.85em;
}

table {
  border-collapse: collapse;
  width: 100%;
  display: block;
  overflow-x: auto;
}
table th, table td {
  border: 1px solid var(--border);
  padding: 8px 14px;
  text-align: left;
}
/* Column alignment from the GFM separator row. The data-align
   attribute is set by the post-processor; the attribute-selector
   specificity outranks the bare `table td` rule above so the
   left default doesn't fight column-specific alignment. */
table th[data-align="center"], table td[data-align="center"] { text-align: center; }
table th[data-align="right"], table td[data-align="right"] { text-align: right; }
table tr:nth-child(2n) { background: var(--table-stripe); }
table th { font-weight: 600; background: var(--table-stripe); }

img {
  max-width: 100%;
  height: auto;
  border-radius: 6px;
}

.alert {
  border-left: 4px solid;
  padding: 8px 16px;
  margin: 1em 0;
  border-radius: 0 6px 6px 0;
  background: var(--code-bg);
}
.alert-title {
  display: flex;
  align-items: center;
  gap: 6px;
  font-weight: 600;
  margin-bottom: 4px;
}
.alert-title svg { width: 16px; height: 16px; flex-shrink: 0; }
.alert > p:first-of-type { margin-top: 0; }
.alert > p:last-of-type { margin-bottom: 0; }
.alert-note { border-color: var(--alert-note); }
.alert-note .alert-title { color: var(--alert-note); }
.alert-tip { border-color: var(--alert-tip); }
.alert-tip .alert-title { color: var(--alert-tip); }
.alert-important { border-color: var(--alert-important); }
.alert-important .alert-title { color: var(--alert-important); }
.alert-warning { border-color: var(--alert-warning); }
.alert-warning .alert-title { color: var(--alert-warning); }
.alert-caution { border-color: var(--alert-caution); }
.alert-caution .alert-title { color: var(--alert-caution); }
.rmd-changed-marker { display: block; height: 0; margin: 0; padding: 0; }
.rmd-changed-marker + * {
  border-left: 3px solid var(--change);
  padding-left: 0.75em;
  margin-left: -1em;
  cursor: default;
}
.rmd-changed-marker + .rmd-showing-prev {
  background: rgba(227, 179, 65, 0.06);
}
.rmd-prev-empty { color: var(--muted); }
/* Swap content needs to wrap so long lines stay visible — the
 * mouseleave revert means the user can't scroll horizontally. */
.rmd-showing-prev,
.rmd-showing-prev pre,
.rmd-showing-prev code {
  white-space: pre-wrap;
  word-break: break-word;
  overflow-wrap: anywhere;
  overflow-x: hidden;
}
.rmd-img-wrapper {
  position: relative;
  display: inline-block;
  line-height: 0;
  max-width: 100%;
}
.rmd-img-wrapper img { display: block; max-width: 100%; height: auto; }
.rmd-img-wrapper:hover { outline: 1px dashed var(--accent); outline-offset: 1px; }
.rmd-img-handle {
  position: absolute;
  width: 12px;
  height: 12px;
  background: var(--bg);
  border: 2px solid var(--accent);
  border-radius: 2px;
  opacity: 0;
  transition: opacity 0.12s;
  z-index: 5;
}
.rmd-img-wrapper:hover .rmd-img-handle { opacity: 1; }
.rmd-img-handle-nw { top: -7px; left: -7px; cursor: nwse-resize; }
.rmd-img-handle-ne { top: -7px; right: -7px; cursor: nesw-resize; }
.rmd-img-handle-sw { bottom: -7px; left: -7px; cursor: nesw-resize; }
.rmd-img-handle-se { bottom: -7px; right: -7px; cursor: nwse-resize; }
.rmd-img-dragging { opacity: 0.55; }
.rmd-img-dragging .rmd-img-handle { display: none; }
.rmd-img-dragging:hover { outline: 2px solid var(--accent); }
.rmd-cell { cursor: text; transition: background 0.1s; }
.rmd-cell:hover { background: rgba(127, 127, 127, 0.08); }
.rmd-cell-editing {
  outline: 2px solid var(--accent);
  outline-offset: -2px;
  background: var(--bg);
  white-space: pre-wrap;
  word-break: break-word;
  cursor: text;
}
.rmd-cell-editing:focus { outline-color: var(--accent); }
.rmd-table-toolbar {
  position: fixed;
  z-index: 60;
  display: none;
  flex-direction: row;
  gap: 2px;
  padding: 4px;
  background: var(--bg);
  border: 1px solid var(--border);
  border-radius: 6px;
  box-shadow: 0 4px 12px rgba(0, 0, 0, 0.18);
  font-size: 0.8em;
  user-select: none;
}
.rmd-table-toolbar-btn {
  background: transparent;
  border: none;
  color: var(--fg);
  padding: 4px 8px;
  border-radius: 4px;
  cursor: pointer;
  font: inherit;
  white-space: nowrap;
}
.rmd-table-toolbar-btn:hover {
  background: rgba(127, 127, 127, 0.14);
  color: var(--accent);
}
.rmd-table-toolbar-btn.rmd-table-toolbar-active {
  background: var(--accent);
  color: var(--bg);
}
.rmd-table-toolbar-btn.rmd-table-toolbar-active:hover {
  background: var(--accent);
  color: var(--bg);
  filter: brightness(1.1);
}
.rmd-table-toolbar-sep {
  width: 1px;
  align-self: stretch;
  background: var(--border);
  margin: 2px 4px;
}
.rmd-table-fixed {
  table-layout: fixed;
}
.rmd-table-fixed th, .rmd-table-fixed td {
  overflow: hidden;
  word-break: break-word;
}
th.rmd-cell { position: relative; }
.rmd-th-resize-handle {
  position: absolute;
  top: 0;
  right: -3px;
  width: 6px;
  height: 100%;
  cursor: col-resize;
  z-index: 3;
  user-select: none;
}
.rmd-th-resize-handle:hover,
.rmd-th-resize-handle.rmd-resizing {
  background: var(--accent);
  opacity: 0.4;
}
.rmd-resizing-table, .rmd-resizing-table * {
  cursor: col-resize !important;
  user-select: none !important;
}
.rmd-history-rail {
  position: fixed;
  left: 8px;
  top: 24px;
  bottom: 24px;
  width: 22px;
  display: flex;
  flex-direction: column;
  align-items: center;
  z-index: 50;
  overflow-y: auto;
  scrollbar-width: thin;
}
.rmd-history-track {
  position: absolute;
  top: 8px;
  bottom: 8px;
  left: 50%;
  transform: translateX(-50%);
  width: 1px;
  background: var(--border);
  pointer-events: none;
}
.rmd-history-circle {
  width: 10px;
  height: 10px;
  border-radius: 50%;
  background: var(--muted);
  border: 1px solid var(--bg);
  margin: 5px 0;
  padding: 0;
  cursor: pointer;
  position: relative;
  z-index: 1;
  transition: transform 0.12s ease, background 0.12s ease, box-shadow 0.12s ease;
  flex-shrink: 0;
}
.rmd-history-circle:hover {
  transform: scale(1.5);
  background: var(--accent);
  box-shadow: 0 0 6px var(--accent);
}
.rmd-history-circle.rmd-history-active {
  background: var(--accent);
  box-shadow: 0 0 8px var(--accent);
}
.rmd-history-hint {
  position: fixed;
  left: 14px;
  top: 32px;
  width: 6px;
  height: 6px;
  border-radius: 50%;
  background: var(--muted);
  opacity: 0.4;
  z-index: 50;
  cursor: pointer;
  transition: opacity 0.12s, transform 0.12s, background 0.12s;
}
.rmd-history-hint:hover {
  opacity: 0.9;
  transform: scale(1.6);
  background: var(--accent);
}
.rmd-minimap {
  position: fixed;
  right: 0;
  top: 8px;
  bottom: 8px;
  width: 14px;
  z-index: 60;
  pointer-events: auto;
}
.rmd-minimap-tick {
  position: absolute;
  left: 3px;
  right: 3px;
  height: 4px;
  background: var(--change);
  border-radius: 2px;
  cursor: pointer;
  opacity: 0.55;
  margin-top: -2px;
  transition: opacity 0.12s ease, transform 0.12s ease;
}
.rmd-minimap-tick:hover {
  opacity: 1;
  transform: scaleX(1.7);
}
.rmd-prev-banner {
  font-size: 0.68em;
  font-weight: 500;
  font-style: italic;
  color: var(--muted);
  margin: 0.5em 0 0 0;
  padding-top: 0.25em;
  border-top: 1px solid var(--border);
  text-transform: uppercase;
  letter-spacing: 0.04em;
}
.rmd-diff {
  font-family: "JetBrains Mono", "Fira Code", "Cascadia Mono",
               "DejaVu Sans Mono", ui-monospace, monospace;
  font-size: 0.92em;
  line-height: 1.5;
  margin: 0.25em 0;
}
.rmd-diff-line {
  display: flex;
  white-space: pre-wrap;
  padding: 0 0.25em;
  border-radius: 2px;
}
.rmd-diff-mark {
  flex: 0 0 1.4em;
  text-align: center;
  font-weight: 600;
  user-select: none;
  opacity: 0.85;
}
.rmd-diff-text { flex: 1 1 auto; }
.rmd-diff-add { background: rgba(31, 136, 61, 0.14); color: var(--alert-tip); }
.rmd-diff-del { background: rgba(207, 34, 46, 0.14); color: var(--alert-caution); }
.rmd-diff-mod { background: rgba(227, 179, 65, 0.08); }
.rmd-diff-eq  { color: var(--muted); }
.rmd-diff-w-del {
  background: rgba(207, 34, 46, 0.22);
  color: var(--alert-caution);
  text-decoration: line-through;
  border-radius: 2px;
  padding: 0 2px;
}
.rmd-diff-w-add {
  background: rgba(31, 136, 61, 0.22);
  color: var(--alert-tip);
  text-decoration: none;
  border-radius: 2px;
  padding: 0 2px;
}
"#;

pub const HTML_TEMPLATE: &'static str = r#"<!doctype html>
<html>
<head>
<meta charset="utf-8">
<title>{TITLE}</title>
<style>
{THEME_CSS}
{BASE_CSS}
</style>
<base href="{BASE_HREF}">
</head>
<body>
{BODY}
{MERMAID_SCRIPT}
{IMAGE_CLICK_JS}
</body>
</html>
"#;

pub const IMAGE_CLICK_JS: &'static str = r#"<script>
(function() {
  var msg = (window.webkit && window.webkit.messageHandlers) || null;
  if (!msg || (!msg.imageClick && !msg.imageResize && !msg.imageMove)) return;
  function send(name, payload) {
    if (msg[name]) msg[name].postMessage(payload);
  }
  function setupImage(img) {
    if (img.dataset.rmdSetup) return;
    img.dataset.rmdSetup = "1";
    var wrap = document.createElement("span");
    wrap.className = "rmd-img-wrapper";
    img.parentNode.insertBefore(wrap, img);
    wrap.appendChild(img);
    ["nw","ne","sw","se"].forEach(function(corner) {
      var h = document.createElement("span");
      h.className = "rmd-img-handle rmd-img-handle-" + corner;
      wrap.appendChild(h);
      h.addEventListener("mousedown", function(e) {
        e.preventDefault();
        e.stopPropagation();
        startResize(e, img, corner);
      });
    });
    img.addEventListener("mousedown", function(e) {
      if (e.button !== 0) return;
      if (e.target !== img) return;
      e.preventDefault();
      startMaybeMove(e, img);
    });
    img.addEventListener("dragstart", function(e) { e.preventDefault(); });
  }
  function startResize(e, img, corner) {
    var startX = e.clientX;
    var startW = img.offsetWidth || img.naturalWidth || 200;
    var startH = img.offsetHeight || img.naturalHeight || 200;
    var aspect = startW / Math.max(1, startH);
    function onMove(ev) {
      var dx = ev.clientX - startX;
      var sign = (corner === "ne" || corner === "se") ? 1 : -1;
      var newW = Math.max(40, Math.round(startW + sign * dx));
      img.style.width = newW + "px";
      img.style.height = Math.round(newW / aspect) + "px";
    }
    function onUp() {
      window.removeEventListener("mousemove", onMove);
      window.removeEventListener("mouseup", onUp);
      var finalW = Math.round(img.offsetWidth);
      var src = img.getAttribute("src") || "";
      var alt = img.getAttribute("alt") || "";
      send("imageResize", src + "\t" + finalW + "\t" + alt);
    }
    window.addEventListener("mousemove", onMove);
    window.addEventListener("mouseup", onUp);
  }
  // Drop targets are individual image wrappers in document order. This
  // way the user can drop "between" two images regardless of whether
  // they're each in their own paragraph (stacked) or side-by-side
  // inline within one paragraph.
  function dropTargets(dragWrapper) {
    return Array.from(document.querySelectorAll(".rmd-img-wrapper"))
      .filter(function(w) { return w !== dragWrapper; });
  }
  // "Before" a wrapper: cursor is above it (block layout) OR on the
  // same line and to the left of its midpoint (inline layout).
  function isBefore(x, y, rect) {
    if (y < rect.top) return true;
    if (y > rect.bottom) return false;
    return x < rect.left + rect.width / 2;
  }
  function dropIndexFor(wrapper, x, y) {
    var targets = dropTargets(wrapper);
    for (var i = 0; i < targets.length; i++) {
      if (isBefore(x, y, targets[i].getBoundingClientRect())) return i;
    }
    return targets.length;
  }
  // Make-room animation: as the ghost approaches a gap, blocks at and
  // after the candidate drop position smoothly translate downward by
  // the dragged image's height. The user sees the existing images
  // physically slide aside, previewing the post-drop layout.
  var spacedBlocks = [];
  function applySpacing(wrapper, idx, height) {
    var blocks = dropTargets(wrapper);
    var newSpaced = blocks.slice(idx);
    // Reset any block that's no longer in the "spaced" set.
    spacedBlocks.forEach(function(el) {
      if (newSpaced.indexOf(el) === -1) {
        el.style.transform = "";
      }
    });
    // Apply to the new set. transition is set once and left in place
    // for the duration of the drag.
    newSpaced.forEach(function(el) {
      if (el.dataset.rmdSpaced !== "1") {
        el.style.transition = "transform 0.18s ease";
        el.dataset.rmdSpaced = "1";
      }
      el.style.transform = "translateY(" + height + "px)";
    });
    spacedBlocks = newSpaced;
  }
  function clearSpacing() {
    spacedBlocks.forEach(function(el) {
      el.style.transform = "";
      el.style.transition = "";
      delete el.dataset.rmdSpaced;
    });
    spacedBlocks = [];
  }

  function startMaybeMove(e, img) {
    var wrapper = img.parentElement;
    var startX = e.clientX, startY = e.clientY;
    var rect = wrapper.getBoundingClientRect();
    var grabX = startX - rect.left;
    var grabY = startY - rect.top;
    var lockedWidth = Math.min(rect.width, 360);
    var lockedHeight = Math.round(
      (lockedWidth / Math.max(1, rect.width)) * rect.height
    );
    var moved = false;
    var lastIdx = -1;
    function onMove(ev) {
      var dx = ev.clientX - startX, dy = ev.clientY - startY;
      if (!moved && (Math.abs(dx) > 2 || Math.abs(dy) > 2)) {
        moved = true;
        wrapper.classList.add("rmd-img-dragging");
        // Float the wrapper at cursor position so the cursor smoothly
        // carries the image around.
        wrapper.style.position = "fixed";
        wrapper.style.zIndex = "1000";
        wrapper.style.pointerEvents = "none";
        wrapper.style.width = lockedWidth + "px";
        wrapper.style.height = "auto";
        wrapper.style.margin = "0";
      }
      if (moved) {
        wrapper.style.left = (ev.clientX - grabX) + "px";
        wrapper.style.top = (ev.clientY - grabY) + "px";
        var idx = dropIndexFor(wrapper, ev.clientX, ev.clientY);
        if (idx !== lastIdx) {
          applySpacing(wrapper, idx, lockedHeight);
          lastIdx = idx;
        }
      }
    }
    function onUp(ev) {
      window.removeEventListener("mousemove", onMove);
      window.removeEventListener("mouseup", onUp);
      clearSpacing();
      var src = img.getAttribute("src") || "";
      if (!moved) {
        var width = img.getAttribute("width") || "";
        var alt = img.getAttribute("alt") || "";
        send("imageClick", src + "\t" + width + "\t" + alt);
        return;
      }
      // Identify the target image by its src so Rust can locate it in
      // the buffer regardless of paragraph/inline structure. Empty
      // targetSrc means "append at end".
      var targets = dropTargets(wrapper);
      var targetSrc = "";
      if (lastIdx >= 0 && lastIdx < targets.length) {
        var tgtImg = targets[lastIdx].querySelector("img");
        targetSrc = (tgtImg && tgtImg.getAttribute("src")) || "";
      }
      send("imageMove", src + "\t" + targetSrc);
    }
    window.addEventListener("mousemove", onMove);
    window.addEventListener("mouseup", onUp);
  }
  document.querySelectorAll("img").forEach(setupImage);
})();
</script>
"#;

pub const MERMAID_INIT_JS: &'static str = r#"
(function() {
  // Source blocks come through as <pre class="mermaid">...</pre> (a CommonMark
  // type-1 HTML block, so blank lines inside the diagram survive parsing).
  // Mermaid expects <div class="mermaid"> with whitespace-trimmed content, so
  // convert here right before mermaid.run().
  document.querySelectorAll('pre.mermaid').forEach(function(pre) {
    var div = document.createElement('div');
    div.className = 'mermaid';
    div.textContent = pre.textContent.replace(/^\s*\n/, '').replace(/\s+$/, '');
    pre.replaceWith(div);
  });
  if (typeof mermaid === 'undefined') return;
  mermaid.initialize({ startOnLoad: false, theme: '{THEME}', securityLevel: 'loose' });
  mermaid.run();
})();
"#;

/// The syntect theme of fenced code: dark or light.
pub open spec fn code_theme(dark: bool) -> Seq<char> {
    if dark {
        "base16-ocean.dark"@
    } else {
        "InspiredGitHub"@
    }
}

/// The syntect theme for fenced code in the dark or light preview.
pub fn syntect_theme(dark: bool) -> (t: &'static str)
    ensures
        t@ == code_theme(dark),
{
    if dark {
        "base16-ocean.dark"
    } else {
        "InspiredGitHub"
    }
}

/// The Mermaid scripts: the bundle and the start-up script for the
/// theme, only when the page has a diagram.
pub open spec fn mermaid_script(had_mermaid: bool, bundle: Seq<char>, dark: bool) -> Seq<char> {
    if had_mermaid {
        let theme = if dark {
            "dark"@
        } else {
            "default"@
        };
        "<script>"@ + bundle + "</script>\n<script>"@ + text::replace_all(MERMAID_INIT_JS@, "{THEME}"@, theme)
            + "</script>"@
    } else {
        seq![]
    }
}

/// The base URL for relative links: the document's directory as a
/// `file://` URL (its path percent-encoded, `/` kept), or nothing.
pub open spec fn base_href(base_dir: Option<Seq<char>>) -> Seq<char> {
    match base_dir {
        Some(d) => "file://"@ + html::uri_escaped(text::utf8(d), "/"@) + "/"@,
        None => seq![],
    }
}

/// The page title: the escaped title, or the application's name.
pub open spec fn page_title(title: Seq<char>) -> Seq<char> {
    if title.len() == 0 {
        APP_NAME@
    } else {
        html::html_escaped(title)
    }
}

/// The preview page: the template with its placeholders replaced in turn
/// (title, theme CSS, base CSS, base URL, body, Mermaid scripts, image
/// script), each replacement applying to the text built so far.
pub open spec fn page(
    body: Seq<char>,
    had_mermaid: bool,
    bundle: Seq<char>,
    base_dir: Option<Seq<char>>,
    dark: bool,
    title: Seq<char>,
) -> Seq<char> {
    let css = if dark {
        PREVIEW_CSS_DARK@
    } else {
        PREVIEW_CSS_LIGHT@
    };
    let p1 = text::replace_all(HTML_TEMPLATE@, "{TITLE}"@, page_title(title));
    let p2 = text::replace_all(p1, "{THEME_CSS}"@, css);
    let p3 = text::replace_all(p2, "{BASE_CSS}"@, PREVIEW_CSS_BASE@);
    let p4 = text::replace_all(p3, "{BASE_HREF}"@, base_href(base_dir));
    let p5 = text::replace_all(p4, "{BODY}"@, body);
    let p6 = text::replace_all(p5, "{MERMAID_SCRIPT}"@, mermaid_script(had_mermaid, bundle, dark));
    text::replace_all(p6, "{IMAGE_CLICK_JS}"@, IMAGE_CLICK_JS@)
}

/// The preview page around a rendered markdown `body`: theme CSS for
/// `dark`, `base_dir` as the base URL of relative links, the Mermaid
/// `bundle` and start-up script when the document had a diagram, and the
/// escaped `title` (the application's name when empty).
pub fn html_page(
    body: &str,
    had_mermaid: bool,
    bundle: &str,
    base_dir: Option<&str>,
    dark: bool,
    title: &str,
) -> (out: String)
    ensures
        out@ == page(
            body@,
            had_mermaid,
            bundle@,
            match base_dir {
                Some(d) => Some(d@),
                None => None,
            },
            dark,
            title@,
        ),
{
    proof {
        reveal_strlit("{TITLE}");
        reveal_strlit("{THEME_CSS}");
        reveal_strlit("{BASE_CSS}");
        reveal_strlit("{BASE_HREF}");
        reveal_strlit("{BODY}");
        reveal_strlit("{MERMAID_SCRIPT}");
        reveal_strlit("{IMAGE_CLICK_JS}");
        reveal_strlit("{THEME}");
    }
    let mut script = String::new();
    if had_mermaid {
        let theme = if dark {
            "dark"
        } else {
            "default"
        };
        let init = replace_str(MERMAID_INIT_JS, "{THEME}", theme);
        push_str(&mut script, "<script>");
        push_str(&mut script, bundle);
        push_str(&mut script, "</script>\n<script>");
        push_str(&mut script, init.as_str());
        push_str(&mut script, "</script>");
    }
    let mut href = String::new();
    match base_dir {
        Some(dir) => {
            let escaped = uri_escape(dir, "/");
            push_str(&mut href, "file://");
            push_str(&mut href, escaped.as_str());
            push_str(&mut href, "/");
        },
        None => {},
    }
    let css = if dark {
        PREVIEW_CSS_DARK
    } else {
        PREVIEW_CSS_LIGHT
    };
    let title_safe = if title.unicode_len() == 0 {
        let mut t = String::new();
        push_str(&mut t, APP_NAME);
        t
    } else {
        html_escape(title)
    };
    let p1 = replace_str(HTML_TEMPLATE, "{TITLE}", title_safe.as_str());
    let p2 = replace_str(p1.as_str(), "{THEME_CSS}", css);
    let p3 = replace_str(p2.as_str(), "{BASE_CSS}", PREVIEW_CSS_BASE);
    let p4 = replace_str(p3.as_str(), "{BASE_HREF}", href.as_str());
    let p5 = replace_str(p4.as_str(), "{BODY}", body);
    let p6 = replace_str(p5.as_str(), "{MERMAID_SCRIPT}", script.as_str());
    let out = replace_str(p6.as_str(), "{IMAGE_CLICK_JS}", IMAGE_CLICK_JS);
    assert(script@ =~= mermaid_script(had_mermaid, bundle@, dark));
    out
}


/// `h` with `fragment` and a line break inserted before its first
/// `</body>`, or `h` unchanged when it has none.
pub open spec fn before_body_end(h: Seq<char>, fragment: Seq<char>) -> Seq<char> {
    match images::find_from(h, "</body>"@, 0) {
        Some(i) => h.subrange(0, i) + fragment + "\n"@ + h.subrange(i, h.len() as int),
        None => h,
    }
}

/// Insert `fragment` (a script or the history rail) into the page `html`
/// just before its closing `</body>` tag, on a line of its own.
pub fn insert_before_body_end(html: &str, fragment: &str) -> (out: String)
    ensures
        out@ == before_body_end(html@, fragment@),
{
    let v = chars_of(html);
    let p = chars_of("</body>");
    let found = images::find_chars(&v, &p, 0);
    proof {
        images::lemma_find_from(v@, p@, 0);
    }
    match found {
        Some(i) => {
            let mut out = string_from_chars(&v, 0, i);
            push_str(&mut out, fragment);
            push_str(&mut out, "\n");
            let rest = string_from_chars(&v, i, v.len());
            push_str(&mut out, rest.as_str());
            proof {
                reveal_strlit("\n");
            }
            out
        },
        None => {
            let mut out = String::new();
            push_str(&mut out, html);
            out
        },
    }
}

} // verus!
