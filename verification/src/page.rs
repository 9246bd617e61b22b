//! The fixed parts of the page: its style sheet, its script, and the
//! frame that holds the title and the rendered list.

use vstd::prelude::*;
use vstd::string::StringExecFns;
use crate::chars::chars_of;
use crate::text::{spec_esc, push_esc_range};

verus! {

/// The page's style sheet: the hyperlist.vim palette, dark and light.
pub const CSS: &'static str = "
:root {
  --bg: #0d0d14; --fg: #d8d8d8; --dim: #777;
  --op: #4a8dff; --prop: #ff4444; --qual: #33cc55;
  --start: #d75fff; --ref: #d75fff; --cmt: #33bbbb;
  --tag: #e0d020; --todo-bg: #e0d020; --todo-fg: #000;
  --hit: #2a2a40;
}
* { box-sizing: border-box; }
body { background: var(--bg); color: var(--fg);
  font-family: 'JetBrains Mono', 'DejaVu Sans Mono', monospace;
  font-size: 15px; line-height: 1.55; margin: 0; padding: 1.2em 1.6em 4em; }
header { position: sticky; top: 0; background: var(--bg);
  padding: .6em 0; border-bottom: 1px solid #222; z-index: 2; }
header input { background: #16161f; color: var(--fg); border: 1px solid #333;
  border-radius: 4px; padding: .3em .6em; font: inherit; width: 16em; }
header button { background: #16161f; color: var(--dim); border: 1px solid #333;
  border-radius: 4px; padding: .25em .55em; font: inherit; cursor: pointer; }
header button:hover { color: var(--fg); }
h1 { font-size: 1.15em; margin: 0 0 .4em; }
details { margin: 0; }
details > summary { list-style: none; cursor: pointer; }
details > summary::before { content: '▸ '; color: var(--dim); }
details[open] > summary::before { content: '▾ '; }
summary::-webkit-details-marker { display: none; }
.item { white-space: pre-wrap; }
.leaf::before { content: '  '; color: var(--dim); }
.kids { margin-left: 1.6em; border-left: 1px solid #1e1e2a; padding-left: .5em; }
.op { color: var(--op); font-weight: bold; }
.prop { color: var(--prop); }
.qual { color: var(--qual); }
.start { color: var(--start); }
.ref { color: var(--ref); }
a.ref { text-decoration: underline; }
.cmt { color: var(--cmt); }
.tag { color: var(--tag); }
.todo { background: var(--todo-bg); color: var(--todo-fg); }
.lit { color: var(--fg); opacity: .85; }
.hidden { display: none; }
.hit > summary, .hit.item { background: var(--hit); }
footer { color: var(--dim); margin-top: 2em; font-size: .8em; }
b { font-weight: bold; } i { font-style: italic; } u { text-decoration: underline; }
.cb { cursor: pointer; font-size: 1.55em; font-weight: bold; line-height: 1; vertical-align: -0.1em; }
body.light {
  --bg: #fbfaf6; --fg: #222; --dim: #999;
  --op: #0044cc; --prop: #c00000; --qual: #0a7a33;
  --start: #a000a0; --ref: #a000a0; --cmt: #007a7a;
  --tag: #7a6000; --hit: #ece8cf;
}
body.light header { border-bottom-color: #ddd; }
body.light header input, body.light header button {
  background: #f0eee6; border-color: #ccc; }
body.light .kids { border-left-color: #e2ded2; }
";

/// The page's script: fold to a level, toggle checkboxes, follow
/// references, switch the theme, and search.
pub const JS: &'static str = "
function level(n){document.querySelectorAll('details').forEach(d=>{
  d.open = (n<0)||(parseInt(d.dataset.l)<n);});}
function cb(ev,el){ev.preventDefault();ev.stopPropagation();
  var t=el.textContent;
  el.textContent = t.indexOf('\\u2610')>=0 ? '\\u2611 ' : '\\u2610 ';}
function go(id){var e=document.getElementById(id);if(!e)return;
  var p=e.parentElement;
  while(p&&p.id!=='root'){if(p.tagName==='DETAILS')p.open=true;p=p.parentElement;}
  var t=(e.tagName==='DETAILS')?e.querySelector('summary'):e;
  t.scrollIntoView({block:'center'});
  e.classList.add('hit');setTimeout(function(){e.classList.remove('hit');},1500);}
function theme(){document.body.classList.toggle('light');
  try{localStorage.setItem('hl2web-theme',
    document.body.classList.contains('light')?'light':'dark');}catch(e){}}
try{if(localStorage.getItem('hl2web-theme')==='light')
  document.body.classList.add('light');}catch(e){}
function search(q){
  q=q.toLowerCase();
  document.querySelectorAll('.node').forEach(e=>{
    e.classList.remove('hidden','hit');});
  if(!q)return;
  document.querySelectorAll('.node').forEach(e=>{e.classList.add('hidden');});
  document.querySelectorAll('.node').forEach(e=>{
    var t=(e.dataset.t||'').toLowerCase();
    if(t.indexOf(q)>=0){
      e.classList.remove('hidden');e.classList.add('hit');
      var p=e.parentElement;
      while(p&&p.id!=='root'){
        if(p.classList&&p.classList.contains('node')){
          p.classList.remove('hidden');
          if(p.tagName==='DETAILS')p.open=true;}
        p=p.parentElement;}
      e.querySelectorAll('.node').forEach(k=>{k.classList.remove('hidden');});
    }});}
";

pub const PAGE_HEAD: &'static str = "<!doctype html><html><head><meta charset=utf-8><meta name=viewport content=\"width=device-width, initial-scale=1\"><title>";

pub const PAGE_STYLE: &'static str = "</title><style>";

pub const PAGE_HEADER: &'static str = "</style></head><body><header><h1>";

pub const PAGE_ROOT: &'static str = "</h1><input id=q placeholder=search oninput=search(this.value)><button onclick=level(1)>1</button><button onclick=level(2)>2</button><button onclick=level(3)>3</button><button onclick=level(4)>4</button><button onclick=level(-1)>all</button><button onclick=level(0)>none</button><button onclick=theme() title=\"light / dark\">☾☀</button></header><div id=root>";

pub const PAGE_FOOTER: &'static str = "</div><footer>rendered by hl2web ";

pub const PAGE_SCRIPT: &'static str = " — <a class=ref href=\"https://isene.org/hyperlist/\">HyperList</a></footer><script>";

pub const PAGE_END: &'static str = "</script></body></html>";


/// The page around a rendered list: head with the title, style sheet and
/// script, the header with search and fold buttons, and the footer.
pub open spec fn spec_render_page(title: Seq<char>, version: Seq<char>, body: Seq<char>) -> Seq<char> {
    PAGE_HEAD@ + spec_esc(title) + PAGE_STYLE@ + CSS@ + PAGE_HEADER@ + spec_esc(title) + PAGE_ROOT@ + body
        + PAGE_FOOTER@ + version + PAGE_SCRIPT@ + JS@ + PAGE_END@
}

/// The whole HTML page: `title` (escaped) in the head and the header, the
/// rendered list `body` in the root element, `version` in the footer.
pub fn render_page(title: &str, version: &str, body: &str) -> (r: String)
    ensures
        r@ == spec_render_page(title@, version@, body@),
{
    let t = chars_of(title);
    let mut out = String::new();
    out.append(PAGE_HEAD);
    push_esc_range(&mut out, &t, 0, t.len());
    out.append(PAGE_STYLE);
    out.append(CSS);
    out.append(PAGE_HEADER);
    push_esc_range(&mut out, &t, 0, t.len());
    out.append(PAGE_ROOT);
    out.append(body);
    out.append(PAGE_FOOTER);
    out.append(version);
    out.append(PAGE_SCRIPT);
    out.append(JS);
    out.append(PAGE_END);
    assert(t@.subrange(0, t@.len() as int) == t@);
    out
}

/// The page carries the style sheet and the script verbatim: the whole of
/// `CSS` inside one `style` element and the whole of `JS` inside one
/// `script` element, and it ends the document after the script.
pub proof fn lemma_page_carries_style_and_script(title: Seq<char>, version: Seq<char>, body: Seq<char>)
    ensures
        exists|a: Seq<char>, z: Seq<char>| spec_render_page(title, version, body) == a + "<style>"@ + CSS@ + "</style>"@ + z,
        exists|a: Seq<char>| spec_render_page(title, version, body) == a + "<script>"@ + JS@ + "</script></body></html>"@,
{
    reveal_strlit("</title><style>");
    reveal_strlit("</title>");
    reveal_strlit("<style>");
    reveal_strlit("</style></head><body><header><h1>");
    reveal_strlit("</style>");
    reveal_strlit(" — <a class=ref href=\"https://isene.org/hyperlist/\">HyperList</a></footer><script>");
    reveal_strlit("<script>");
    reveal_strlit("</script></body></html>");
    let page = spec_render_page(title, version, body);
    let style_tail = PAGE_HEADER@.skip(8);
    assert(PAGE_STYLE@ =~= "</title>"@ + "<style>"@);
    assert(PAGE_HEADER@ =~= "</style>"@ + style_tail);
    let a = PAGE_HEAD@ + spec_esc(title) + "</title>"@;
    let z = style_tail + spec_esc(title) + PAGE_ROOT@ + body + PAGE_FOOTER@ + version + PAGE_SCRIPT@ + JS@ + PAGE_END@;
    assert(page =~= a + "<style>"@ + CSS@ + "</style>"@ + z);
    let pre = PAGE_SCRIPT@.take(PAGE_SCRIPT@.len() - 8);
    assert(PAGE_SCRIPT@ =~= pre + "<script>"@);
    let head_part = PAGE_HEAD@ + spec_esc(title) + PAGE_STYLE@ + CSS@;
    let b = head_part + PAGE_HEADER@ + spec_esc(title) + PAGE_ROOT@ + body + PAGE_FOOTER@ + version + pre;
    assert(page =~= b + "<script>"@ + JS@ + "</script></body></html>"@);
}

} // verus!
