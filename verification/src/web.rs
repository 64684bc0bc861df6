//! The pages that a browser gets besides the index: the watch page, which
//! runs a terminal on a capture's stream, and the den's styles.
use vstd::prelude::*;

verus! {

pub const WATCH_HTML: &'static str = r##"<!DOCTYPE html>
<html lang="en">
<head>
<meta charset="utf-8">
<meta name="viewport" content="width=device-width, initial-scale=1">
<title>otterm — watching</title>
<link rel="stylesheet" href="/assets/dom/terminal.css">
<link rel="stylesheet" href="/assets/den.css">
</head>
<body>
<header>🦦 <span id="state" class="live">● live</span></header>
<div id="terminal" class="wterm" role="textbox" aria-label="Captured command output" aria-multiline="true" aria-roledescription="terminal"></div>
<footer id="footer"></footer>
<script type="importmap">
{ "imports": { "@wterm/core": "/assets/core/index.js" } }
</script>
<script type="module">
import { WTerm } from '/assets/dom/index.js';
import { WebSocketTransport } from '/assets/core/index.js';

const id = location.pathname.split('/').pop();
const stateEl = document.getElementById('state');
const footerEl = document.getElementById('footer');

const term = new WTerm(document.getElementById('terminal'), { autoResize: true });
await term.init();

const proto = location.protocol === 'https:' ? 'wss' : 'ws';
const ws = new WebSocketTransport({
  url: `${proto}://${location.host}/stream/${id}`,
  onData(data) {
    if (typeof data === 'string') {
      // control frame — byte frames always arrive binary
      const msg = JSON.parse(data);
      if (msg.done) {
        stateEl.textContent = msg.exit === 0 ? '✓ done' : `✗ exit ${msg.exit ?? '?'}`;
        stateEl.className = msg.exit === 0 ? 'ok' : 'err';
        footerEl.textContent = 'stay cool. ~( o.o )~';
      }
    } else {
      term.write(data);
    }
  },
  onClose() {
    if (stateEl.className === 'live') stateEl.textContent = '… reconnecting';
  },
});
ws.connect();
</script>
</body>
</html>
"##;

pub const DEN_CSS: &'static str = r##"/* The den's web colors: the otter palette */
:root {
  --fur: #c98d5c;
  --fur-dark: #6e4a34;
  --cream: #eee2ca;
  --river: #56a8b2;
  --deep: #1e3a46;
  --clam: #e4a060;
  --ok: #78be78;
  --err: #e06c60;
}
body {
  background: var(--deep);
  color: var(--cream);
  font-family: system-ui, sans-serif;
  margin: 0 auto;
  padding: 24px;
  max-width: 900px;
}
header { color: var(--river); font-size: 18px; margin-bottom: 16px; }
header .sub { font-size: 13px; }
a.run {
  display: flex;
  gap: 10px;
  align-items: baseline;
  padding: 8px 12px;
  border-radius: 8px;
  text-decoration: none;
  color: var(--cream);
}
a.run:hover { background: rgba(86, 168, 178, 0.15); }
a.run code { color: var(--clam); }
a.run .meta { margin-left: auto; color: var(--river); font-size: 12px; }
.live { color: var(--ok); }
.ok { color: var(--ok); }
.err { color: var(--err); }
.empty { color: var(--river); }
#terminal { margin-top: 12px; }
footer { color: var(--fur); margin-top: 12px; font-style: italic; }
/* otter-flavored wterm theme (wterm themes are CSS custom properties) */
.wterm { --term-bg: #16303b; --term-fg: #eee2ca; --term-cursor: #56a8b2; }
"##;

} // verus!
