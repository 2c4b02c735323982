//! Structured tool answers from extensions: a tree of tagged nodes, and the
//! text the model gets for it, with text bodies over a share of the payload
//! limit cut short and spilled to files.
use vstd::prelude::*;
use vstd::string::*;
use crate::capability::calculator::{utf8_len, utf8_width};
use crate::capability::process::MAX_STREAM_PAYLOAD_BYTES;
use crate::capability::shell_output::{decimal, decimal_string, open_tag, open_tag_string};
use crate::text::{chars_of, string_of};
use crate::capability::ToolResult;

verus! {

/// The body of a content node.
#[derive(Debug)]
pub enum ContentBody {
    Text(String),
    Binary { mime_type: String, data: Vec<u8> },
}

/// A structured tool answer: a tag, attributes in order, an optional body
/// and child nodes in order.
#[derive(Debug)]
pub struct ToolContent {
    pub tag: String,
    pub attributes: Vec<(String, String)>,
    pub body: Option<ContentBody>,
    pub children: Vec<ToolContent>,
}

/// The text body of a node, if it has one.
pub open spec fn text_of(c: ToolContent) -> Option<Seq<char>> {
    match c.body {
        Some(ContentBody::Text(t)) => Some(t@),
        _ => None,
    }
}

/// The bytes of a node's own text body.
pub open spec fn own_bytes(c: ToolContent) -> nat {
    match text_of(c) {
        Some(t) => utf8_len(t),
        None => 0,
    }
}

/// The bytes of all text bodies in a tree.
pub open spec fn text_bytes(c: ToolContent) -> nat
    decreases c, 1int,
{
    own_bytes(c) + forest_bytes(c.children@)
}

/// The bytes of all text bodies in a list of trees.
pub open spec fn forest_bytes(cs: Seq<ToolContent>) -> nat
    decreases cs, 0int,
{
    if cs.len() == 0 {
        0
    } else {
        forest_bytes(cs.drop_last()) + text_bytes(cs.last())
    }
}

proof fn lemma_forest_bytes_prefix(cs: Seq<ToolContent>, i: int)
    requires
        0 <= i <= cs.len(),
    ensures
        forest_bytes(cs.take(i)) <= forest_bytes(cs),
    decreases cs.len() - i,
{
    if i < cs.len() {
        assert(cs.take(i + 1).drop_last() =~= cs.take(i));
        lemma_forest_bytes_prefix(cs, i + 1);
    } else {
        assert(cs.take(i) =~= cs);
    }
}

/// The byte count of a node's own text body.
fn own_byte_len(c: &ToolContent) -> (r: usize)
    requires
        own_bytes(*c) <= usize::MAX,
    ensures
        r == own_bytes(*c),
{
    match &c.body {
        Some(ContentBody::Text(t)) => {
            proof {
                crate::capability::calculator::utf8_len_is_encoding_length(t@);
            }
            t.as_str().len()
        },
        _ => 0,
    }
}

/// The bytes of all text bodies in the tree, however deep.
pub fn total_text_bytes(content: &ToolContent) -> (r: usize)
    requires
        text_bytes(*content) <= usize::MAX,
    ensures
        r == text_bytes(*content),
    decreases content,
{
    let cs = &content.children;
    let n = cs.len();
    let mut total: usize = 0;
    let mut i: usize = 0;
    while i < n
        invariant
            n == cs@.len(),
            cs == content.children,
            i <= n,
            text_bytes(*content) <= usize::MAX,
            total == forest_bytes(cs@.take(i as int)),
        decreases n - i,
    {
        proof {
            assert(cs@.take(i + 1).drop_last() =~= cs@.take(i as int));
            assert(cs@.take(i + 1).last() == cs@[i as int]);
            lemma_forest_bytes_prefix(cs@, i + 1);
        }
        let t = total_text_bytes(&cs[i]);
        total = total + t;
        i = i + 1;
    }
    assert(cs@.take(n as int) =~= cs@);
    own_byte_len(content) + total
}

proof fn lemma_forest_bytes_elem(cs: Seq<ToolContent>, i: int)
    requires
        0 <= i < cs.len(),
    ensures
        text_bytes(cs[i]) <= forest_bytes(cs),
    decreases cs.len(),
{
    if i < cs.len() - 1 {
        assert(cs.drop_last()[i] == cs[i]);
        lemma_forest_bytes_elem(cs.drop_last(), i);
    }
}

/// The share of the payload limit that a body of `len` bytes gets when all
/// bodies hold `total` bytes.
pub open spec fn budget(len: nat, total: nat) -> nat {
    ((len * MAX_STREAM_PAYLOAD_BYTES) as nat / total) as nat
}

/// Whether a node's text body is cut: a total is given and the body is
/// over its share.
pub open spec fn is_cut(c: ToolContent, total: Option<usize>) -> bool {
    match (text_of(c), total) {
        (Some(t), Some(n)) => utf8_len(t) > budget(utf8_len(t), n as nat),
        _ => false,
    }
}

/// The number of leading characters of `t` whose bytes fit in `limit`.
pub open spec fn fit_len(t: Seq<char>, limit: nat) -> nat
    decreases t.len(),
{
    if t.len() == 0 || utf8_width(t[0]) > limit {
        0
    } else {
        1 + fit_len(t.drop_first(), (limit - utf8_width(t[0])) as nat)
    }
}

/// What is kept of a cut body: the longest prefix within its share, whole
/// characters only.
pub open spec fn kept_text(t: Seq<char>, total: nat) -> Seq<char> {
    t.take(fit_len(t, budget(utf8_len(t), total)) as int)
}

/// The CDATA section of a node: its text, or the kept part and `...` when
/// cut; nothing without a text body.
pub open spec fn node_body(c: ToolContent, total: Option<usize>) -> Seq<char> {
    match text_of(c) {
        Some(t) => "<![CDATA["@ + (if is_cut(c, total) {
            kept_text(t, total->0 as nat) + "..."@
        } else {
            t
        }) + "]]>"@,
        None => Seq::empty(),
    }
}

/// Attributes as text pairs.
pub open spec fn attr_pairs(a: Seq<(String, String)>) -> Seq<(Seq<char>, Seq<char>)> {
    a.map_values(|p: (String, String)| (p.0@, p.1@))
}

/// A node's attributes; a cut one adds its byte count, the truncation mark
/// and, when the spill was written, where the whole text lies.
pub open spec fn node_attrs(c: ToolContent, total: Option<usize>, path: Option<Seq<char>>) -> Seq<(Seq<char>, Seq<char>)> {
    if is_cut(c, total) {
        attr_pairs(c.attributes@) + seq![("total_bytes"@, decimal(own_bytes(c))), ("truncated"@, "true"@)]
            + match path {
            Some(p) => seq![("full_output"@, p)],
            None => Seq::empty(),
        }
    } else {
        attr_pairs(c.attributes@)
    }
}

/// The full texts of the cut bodies of a tree, in the order they are
/// spilled: the later children's subtrees first, the node itself last.
pub open spec fn spill_texts_of(c: ToolContent, total: Option<usize>) -> Seq<Seq<char>>
    decreases c, 1int,
{
    forest_spill_texts(c.children@, total) + if is_cut(c, total) {
        seq![text_of(c)->0]
    } else {
        Seq::empty()
    }
}

pub open spec fn forest_spill_texts(cs: Seq<ToolContent>, total: Option<usize>) -> Seq<Seq<char>>
    decreases cs, 0int,
{
    if cs.len() == 0 {
        Seq::empty()
    } else {
        spill_texts_of(cs.last(), total) + forest_spill_texts(cs.drop_last(), total)
    }
}

/// The text of a tree whose spills start at index `k` of `paths`: its
/// opening tag, its body, each child on a line of its own, its closing
/// tag.
pub open spec fn rendered(c: ToolContent, total: Option<usize>, paths: Seq<Option<Seq<char>>>, k: nat) -> Seq<char>
    decreases c, 1int,
{
    let own = k + forest_spill_texts(c.children@, total).len();
    let path = if is_cut(c, total) && own < paths.len() {
        paths[own as int]
    } else {
        None
    };
    open_tag(c.tag@, node_attrs(c, total, path)) + node_body(c, total) + (if c.children@.len() == 0 {
        Seq::empty()
    } else {
        child_lines(c.children@, total, paths, k) + "\n"@
    }) + "</"@ + c.tag@ + ">"@
}

/// Each child on a line of its own; the last child's spills come first.
pub open spec fn child_lines(cs: Seq<ToolContent>, total: Option<usize>, paths: Seq<Option<Seq<char>>>, k: nat) -> Seq<char>
    decreases cs, 0int,
{
    if cs.len() == 0 {
        Seq::empty()
    } else {
        child_lines(cs.drop_last(), total, paths, k + spill_texts_of(cs.last(), total).len())
            + "\n"@ + rendered(cs.last(), total, paths, k)
    }
}

/// The number of leading characters whose bytes fit in `limit`.
pub(crate) fn fit_end(v: &[char], limit: usize) -> (r: usize)
    ensures
        r == fit_len(v@, limit as nat),
        r <= v@.len(),
{
    let n = v.len();
    let mut k: usize = 0;
    let mut room: usize = limit;
    assert(v@.skip(0) =~= v@);
    while k < n
        invariant
            n == v@.len(),
            k <= n,
            fit_len(v@, limit as nat) == k + fit_len(v@.skip(k as int), room as nat),
        decreases n - k,
    {
        let c = v[k];
        let w: usize = if (c as u32) < 0x80 {
            1
        } else if (c as u32) < 0x800 {
            2
        } else if (c as u32) < 0x10000 {
            3
        } else {
            4
        };
        assert(v@.skip(k as int)[0] == c);
        if w > room {
            return k;
        }
        assert(v@.skip(k as int).drop_first() =~= v@.skip(k + 1));
        room = room - w;
        k = k + 1;
    }
    assert(v@.skip(n as int) =~= Seq::<char>::empty());
    k
}

/// The full texts of the cut bodies, in the order their spill files are
/// numbered.
pub fn spill_texts(content: &ToolContent, total: Option<usize>) -> (r: Vec<String>)
    requires
        total != Some(0usize),
        text_bytes(*content) * MAX_STREAM_PAYLOAD_BYTES <= usize::MAX,
    ensures
        r.deep_view() == spill_texts_of(*content, total),
    decreases content,
{
    let cs = &content.children;
    let n = cs.len();
    let mut out: Vec<String> = Vec::new();
    let mut j: usize = n;
    assert(cs@.take(n as int) =~= cs@);
    while j > 0
        invariant
            n == cs@.len(),
            cs == content.children,
            j <= n,
            total != Some(0usize),
            text_bytes(*content) * MAX_STREAM_PAYLOAD_BYTES <= usize::MAX,
            forest_spill_texts(cs@, total) == out.deep_view() + forest_spill_texts(cs@.take(j as int), total),
        decreases j,
    {
        proof {
            assert(cs@.take(j as int).drop_last() =~= cs@.take(j - 1));
            assert(cs@.take(j as int).last() == cs@[j - 1]);
            lemma_forest_bytes_elem(cs@, j - 1);
            assert(text_bytes(cs@[j - 1]) * MAX_STREAM_PAYLOAD_BYTES <= text_bytes(*content) * MAX_STREAM_PAYLOAD_BYTES) by (nonlinear_arith)
                requires text_bytes(cs@[j - 1]) <= text_bytes(*content);
        }
        let mut sub = spill_texts(&cs[j - 1], total);
        let ghost before = out.deep_view();
        let ghost added = sub.deep_view();
        out.append(&mut sub);
        assert(out.deep_view() =~= before + added);
        j = j - 1;
    }
    assert(cs@.take(0) =~= Seq::<ToolContent>::empty());
    if let (Some(ContentBody::Text(t)), Some(tot)) = (&content.body, total) {
        proof {
            crate::capability::calculator::utf8_len_is_encoding_length(t@);
            assert(own_bytes(*content) <= text_bytes(*content));
            assert(own_bytes(*content) * MAX_STREAM_PAYLOAD_BYTES <= text_bytes(*content) * MAX_STREAM_PAYLOAD_BYTES) by (nonlinear_arith)
                requires own_bytes(*content) <= text_bytes(*content);
        }
        let len = t.as_str().len();
        let b = len * MAX_STREAM_PAYLOAD_BYTES / tot;
        if len > b {
            let ghost before = out.deep_view();
            out.push(t.clone());
            assert(out.deep_view() =~= before.push(t@));
        }
    }
    out
}

/// Spill paths as text.
pub open spec fn path_views(ps: Seq<Option<String>>) -> Seq<Option<Seq<char>>> {
    ps.map_values(|o: Option<String>| match o {
        Some(s) => Some(s@),
        None => None,
    })
}

/// `"\n"` and a part for each part, the last part first.
pub open spec fn rev_lines(ps: Seq<Seq<char>>) -> Seq<char>
    decreases ps.len(),
{
    if ps.len() == 0 {
        Seq::empty()
    } else {
        "\n"@ + ps.last() + rev_lines(ps.drop_last())
    }
}

fn join_rev_lines(parts: &Vec<String>) -> (r: String)
    ensures
        r@ == rev_lines(parts.deep_view()),
{
    let ghost ps = parts.deep_view();
    let mut r = String::new();
    let mut i: usize = parts.len();
    assert(ps.take(i as int) =~= ps);
    while i > 0
        invariant
            i <= parts@.len(),
            ps == parts.deep_view(),
            rev_lines(ps) == r@ + rev_lines(ps.take(i as int)),
        decreases i,
    {
        proof {
            assert(ps.take(i as int).drop_last() =~= ps.take(i - 1));
            assert(ps.take(i as int).last() == parts@[i - 1]@);
        }
        let ghost before = r@;
        r.append("\n");
        r.append(parts[i - 1].as_str());
        proof {
            reveal_strlit("\n");
            assert(r@ =~= before + "\n"@ + parts@[i - 1]@);
        }
        i = i - 1;
    }
    assert(ps.take(0) =~= Seq::<Seq<char>>::empty());
    r
}

/// The opening tag of a node with its attributes, extended for a cut body.
fn node_open_tag(c: &ToolContent, total: Option<usize>, path: &Option<String>) -> (r: String)
    requires
        total != Some(0usize),
        own_bytes(*c) * MAX_STREAM_PAYLOAD_BYTES <= usize::MAX,
    ensures
        r@ == open_tag(c.tag@, node_attrs(*c, total, match path { Some(p) => Some(p@), None => None })),
{
    let ghost gp = match path {
        Some(p) => Some(p@),
        None => None,
    };
    let attrs = &c.attributes;
    let mut keys: Vec<&str> = Vec::new();
    let mut values: Vec<String> = Vec::new();
    let n = attrs.len();
    let mut i: usize = 0;
    while i < n
        invariant
            n == attrs@.len(),
            attrs == c.attributes,
            i <= n,
            keys@.len() == i,
            values@.len() == i,
            Seq::new(keys@.len(), |j: int| (keys@[j]@, values@[j]@)) =~= attr_pairs(attrs@).take(i as int),
        decreases n - i,
    {
        keys.push(attrs[i].0.as_str());
        values.push(attrs[i].1.clone());
        i = i + 1;
        assert(Seq::new(keys@.len(), |j: int| (keys@[j]@, values@[j]@)) =~= attr_pairs(attrs@).take(i as int));
    }
    assert(attr_pairs(attrs@).take(n as int) =~= attr_pairs(attrs@));
    if let (Some(ContentBody::Text(t)), Some(tot)) = (&c.body, total) {
        proof {
            crate::capability::calculator::utf8_len_is_encoding_length(t@);
        }
        let len = t.as_str().len();
        let b = len * MAX_STREAM_PAYLOAD_BYTES / tot;
        if len > b {
            let ghost base = Seq::new(keys@.len(), |j: int| (keys@[j]@, values@[j]@));
            keys.push("total_bytes");
            values.push(decimal_string(len as u128));
            keys.push("truncated");
            values.push("true".to_owned());
            match path {
                Some(p) => {
                    keys.push("full_output");
                    values.push(p.clone());
                },
                None => {},
            }
            assert(Seq::new(keys@.len(), |j: int| (keys@[j]@, values@[j]@)) =~= node_attrs(*c, total, gp));
        }
    }
    open_tag_string(c.tag.as_str(), &keys, &values)
}

/// The CDATA section of a node.
fn node_body_text(c: &ToolContent, total: Option<usize>) -> (r: String)
    requires
        total != Some(0usize),
        own_bytes(*c) * MAX_STREAM_PAYLOAD_BYTES <= usize::MAX,
    ensures
        r@ == node_body(*c, total),
{
    match &c.body {
        Some(ContentBody::Text(t)) => {
            proof {
                crate::capability::calculator::utf8_len_is_encoding_length(t@);
                reveal_strlit("<![CDATA[");
                reveal_strlit("]]>");
                reveal_strlit("...");
            }
            let mut r = "<![CDATA[".to_owned();
            let len = t.as_str().len();
            let cut = match total {
                Some(tot) => len > len * MAX_STREAM_PAYLOAD_BYTES / tot,
                None => false,
            };
            if cut {
                let tot = match total {
                    Some(tot) => tot,
                    None => 1,
                };
                let v = chars_of(t.as_str());
                let end = fit_end(v.as_slice(), len * MAX_STREAM_PAYLOAD_BYTES / tot);
                let kept = vstd::slice::slice_subrange(v.as_slice(), 0, end);
                assert(kept@ =~= kept_text(t@, tot as nat));
                r.append(string_of(kept).as_str());
                r.append("...");
            } else {
                r.append(t.as_str());
            }
            r.append("]]>");
            r
        },
        _ => String::new(),
    }
}

fn render_node(c: &ToolContent, total: Option<usize>, paths: &Vec<Option<String>>, k: usize) -> (r: (String, usize))
    requires
        total != Some(0usize),
        text_bytes(*c) * MAX_STREAM_PAYLOAD_BYTES <= usize::MAX,
        k + spill_texts_of(*c, total).len() <= paths@.len(),
    ensures
        r.0@ == rendered(*c, total, path_views(paths@), k as nat),
        r.1 == k + spill_texts_of(*c, total).len(),
    decreases c,
{
    let ghost pv = path_views(paths@);
    let cs = &c.children;
    let n = cs.len();
    let mut parts: Vec<String> = Vec::new();
    let mut off: usize = k;
    let mut j: usize = n;
    assert(cs@.take(n as int) =~= cs@);
    assert(parts.deep_view() =~= Seq::<Seq<char>>::empty());
    while j > 0
        invariant
            n == cs@.len(),
            cs == c.children,
            j <= n,
            total != Some(0usize),
            text_bytes(*c) * MAX_STREAM_PAYLOAD_BYTES <= usize::MAX,
            k + spill_texts_of(*c, total).len() <= paths@.len(),
            pv == path_views(paths@),
            off + forest_spill_texts(cs@.take(j as int), total).len() == k + forest_spill_texts(cs@, total).len(),
            child_lines(cs@, total, pv, k as nat) == child_lines(cs@.take(j as int), total, pv, off as nat) + rev_lines(parts.deep_view()),
        decreases j,
    {
        proof {
            assert(cs@.take(j as int).drop_last() =~= cs@.take(j - 1));
            assert(cs@.take(j as int).last() == cs@[j - 1]);
            lemma_forest_bytes_elem(cs@, j - 1);
            assert(text_bytes(cs@[j - 1]) * MAX_STREAM_PAYLOAD_BYTES <= text_bytes(*c) * MAX_STREAM_PAYLOAD_BYTES) by (nonlinear_arith)
                requires text_bytes(cs@[j - 1]) <= text_bytes(*c);
        }
        let (p, next) = render_node(&cs[j - 1], total, paths, off);
        let ghost before = parts.deep_view();
        parts.push(p);
        proof {
            assert(parts.deep_view() =~= before.push(p@));
            assert(parts.deep_view().drop_last() =~= before);
            reveal_strlit("\n");
        }
        off = next;
        j = j - 1;
    }
    assert(cs@.take(0) =~= Seq::<ToolContent>::empty());
    assert(forest_spill_texts(cs@.take(0), total).len() == 0);
    assert(off == k + forest_spill_texts(cs@, total).len());
    proof {
        assert(own_bytes(*c) <= text_bytes(*c));
        assert(own_bytes(*c) * MAX_STREAM_PAYLOAD_BYTES <= text_bytes(*c) * MAX_STREAM_PAYLOAD_BYTES) by (nonlinear_arith)
            requires own_bytes(*c) <= text_bytes(*c);
    }
    let cut = match (&c.body, total) {
        (Some(ContentBody::Text(t)), Some(tot)) => {
            proof {
                crate::capability::calculator::utf8_len_is_encoding_length(t@);
            }
            let len = t.as_str().len();
            len > len * MAX_STREAM_PAYLOAD_BYTES / tot
        },
        _ => false,
    };
    assert(cut == is_cut(*c, total));
    assert(spill_texts_of(*c, total).len() == forest_spill_texts(cs@, total).len() + if cut { 1int } else { 0int });
    let none: Option<String> = None;
    let path = if cut {
        &paths[off]
    } else {
        &none
    };
    let mut r = node_open_tag(c, total, path);
    let body = node_body_text(c, total);
    r.append(body.as_str());
    if n > 0 {
        let lines = join_rev_lines(&parts);
        r.append(lines.as_str());
        r.append("\n");
    }
    r.append("</");
    r.append(c.tag.as_str());
    r.append(">");
    proof {
        reveal_strlit("\n");
        reveal_strlit("</");
        reveal_strlit(">");
    }
    assert(r@ =~= rendered(*c, total, pv, k as nat));
    let plen = paths.len();
    (r, if cut { off + 1 } else { off })
}

/// The text of a structured answer, given where each spilled body was
/// written (`None` where writing failed), in the order of
/// [`spill_texts`].
pub fn render_content(content: &ToolContent, total: Option<usize>, paths: &Vec<Option<String>>) -> (r: String)
    requires
        total != Some(0usize),
        text_bytes(*content) * MAX_STREAM_PAYLOAD_BYTES <= usize::MAX,
        spill_texts_of(*content, total).len() == paths@.len(),
    ensures
        r@ == rendered(*content, total, path_views(paths@), 0),
{
    let (r, _) = render_node(content, total, paths, 0);
    r
}

/// The total that cuts are measured against: the text bytes of the whole
/// answer when they are over the payload limit, none when it all fits.
pub open spec fn budget_total(c: ToolContent) -> Option<usize> {
    if text_bytes(c) > MAX_STREAM_PAYLOAD_BYTES {
        Some(text_bytes(c) as usize)
    } else {
        None
    }
}

fn content_total(content: &ToolContent) -> (r: Option<usize>)
    requires
        text_bytes(*content) <= usize::MAX,
    ensures
        r == budget_total(*content),
{
    let total = total_text_bytes(content);
    if total > MAX_STREAM_PAYLOAD_BYTES {
        Some(total)
    } else {
        None
    }
}

/// The bodies of an answer to spill before it is rendered, in the order of
/// their spill files: none when the answer fits the payload limit.
pub fn response_spills(content: &ToolContent) -> (r: Vec<String>)
    requires
        text_bytes(*content) * MAX_STREAM_PAYLOAD_BYTES <= usize::MAX,
    ensures
        r.deep_view() == spill_texts_of(*content, budget_total(*content)),
{
    proof {
        assert(text_bytes(*content) <= text_bytes(*content) * MAX_STREAM_PAYLOAD_BYTES) by (nonlinear_arith);
    }
    let total = content_total(content);
    spill_texts(content, total)
}

/// The text handed to the model for a structured answer: whole when it fits
/// the payload limit, else each body cut to its share of the limit, given
/// where each spilled body was written.
pub fn augment_tool_response(content: &ToolContent, paths: &Vec<Option<String>>) -> (r: ToolResult)
    requires
        text_bytes(*content) * MAX_STREAM_PAYLOAD_BYTES <= usize::MAX,
        spill_texts_of(*content, budget_total(*content)).len() == paths@.len(),
    ensures
        r matches ToolResult::Text(t) && t@ == rendered(*content, budget_total(*content), path_views(paths@), 0),
{
    proof {
        assert(text_bytes(*content) <= text_bytes(*content) * MAX_STREAM_PAYLOAD_BYTES) by (nonlinear_arith);
    }
    let total = content_total(content);
    ToolResult::Text(render_content(content, total, paths))
}

/// The bytes of a node's text that stay inline.
pub open spec fn own_kept(c: ToolContent, total: Option<usize>) -> nat {
    match text_of(c) {
        Some(t) => if is_cut(c, total) {
            utf8_len(kept_text(t, total->0 as nat))
        } else {
            utf8_len(t)
        },
        None => 0,
    }
}

/// The bytes of text that stay inline in a tree.
pub open spec fn kept_bytes(c: ToolContent, total: Option<usize>) -> nat
    decreases c, 1int,
{
    own_kept(c, total) + forest_kept(c.children@, total)
}

pub open spec fn forest_kept(cs: Seq<ToolContent>, total: Option<usize>) -> nat
    decreases cs, 0int,
{
    if cs.len() == 0 {
        0
    } else {
        forest_kept(cs.drop_last(), total) + kept_bytes(cs.last(), total)
    }
}

pub(crate) proof fn lemma_fit_len_fits(t: Seq<char>, limit: nat)
    ensures
        fit_len(t, limit) <= t.len(),
        utf8_len(t.take(fit_len(t, limit) as int)) <= limit,
    decreases t.len(),
{
    if t.len() == 0 || utf8_width(t[0]) > limit {
        assert(t.take(0) =~= Seq::<char>::empty());
    } else {
        let rest = (limit - utf8_width(t[0])) as nat;
        lemma_fit_len_fits(t.drop_first(), rest);
        let f = fit_len(t.drop_first(), rest);
        assert(t.take(1 + f as int).drop_first() =~= t.drop_first().take(f as int));
        assert(t.take(1 + f as int)[0] == t[0]);
    }
}

proof fn lemma_kept_scaled(c: ToolContent, total: usize)
    requires
        total > 0,
    ensures
        kept_bytes(c, Some(total)) * total <= text_bytes(c) * MAX_STREAM_PAYLOAD_BYTES,
    decreases c, 1int,
{
    let tt = Some(total);
    match text_of(c) {
        Some(t) => {
            let len = utf8_len(t);
            let b = budget(len, total as nat);
            lemma_fit_len_fits(t, b);
            assert(own_kept(c, tt) <= b);
            assert(b * total <= len * MAX_STREAM_PAYLOAD_BYTES) by (nonlinear_arith)
                requires b == ((len * MAX_STREAM_PAYLOAD_BYTES) as nat / total as nat) as nat, total > 0;
            assert(own_kept(c, tt) * total <= b * total) by (nonlinear_arith)
                requires own_kept(c, tt) <= b;
        },
        None => {},
    }
    lemma_forest_kept_scaled(c.children@, total);
    assert(kept_bytes(c, tt) * total == own_kept(c, tt) * total + forest_kept(c.children@, tt) * total) by (nonlinear_arith)
        requires kept_bytes(c, tt) == own_kept(c, tt) + forest_kept(c.children@, tt);
    assert(text_bytes(c) * MAX_STREAM_PAYLOAD_BYTES == own_bytes(c) * MAX_STREAM_PAYLOAD_BYTES + forest_bytes(c.children@) * MAX_STREAM_PAYLOAD_BYTES) by (nonlinear_arith)
        requires text_bytes(c) == own_bytes(c) + forest_bytes(c.children@);
}

proof fn lemma_forest_kept_scaled(cs: Seq<ToolContent>, total: usize)
    requires
        total > 0,
    ensures
        forest_kept(cs, Some(total)) * total <= forest_bytes(cs) * MAX_STREAM_PAYLOAD_BYTES,
    decreases cs, 0int,
{
    if cs.len() > 0 {
        let tt = Some(total);
        lemma_forest_kept_scaled(cs.drop_last(), total);
        lemma_kept_scaled(cs.last(), total);
        assert(forest_kept(cs, tt) * total == forest_kept(cs.drop_last(), tt) * total + kept_bytes(cs.last(), tt) * total) by (nonlinear_arith)
            requires forest_kept(cs, tt) == forest_kept(cs.drop_last(), tt) + kept_bytes(cs.last(), tt);
        assert(forest_bytes(cs) * MAX_STREAM_PAYLOAD_BYTES == forest_bytes(cs.drop_last()) * MAX_STREAM_PAYLOAD_BYTES + text_bytes(cs.last()) * MAX_STREAM_PAYLOAD_BYTES) by (nonlinear_arith)
            requires forest_bytes(cs) == forest_bytes(cs.drop_last()) + text_bytes(cs.last());
    } else {
        assert(forest_kept(cs, Some(total)) == 0);
        assert(forest_kept(cs, Some(total)) * total == 0) by (nonlinear_arith)
            requires forest_kept(cs, Some(total)) == 0;
    }
}

proof fn lemma_nothing_cut_without_total(c: ToolContent)
    ensures
        kept_bytes(c, None) == text_bytes(c),
        spill_texts_of(c, None) =~= Seq::<Seq<char>>::empty(),
    decreases c, 1int,
{
    lemma_forest_nothing_cut(c.children@);
}

proof fn lemma_forest_nothing_cut(cs: Seq<ToolContent>)
    ensures
        forest_kept(cs, None) == forest_bytes(cs),
        forest_spill_texts(cs, None) =~= Seq::<Seq<char>>::empty(),
    decreases cs, 0int,
{
    if cs.len() > 0 {
        lemma_forest_nothing_cut(cs.drop_last());
        lemma_nothing_cut_without_total(cs.last());
    }
}

/// However large a structured answer, the text kept inline stays within
/// the payload limit: whole when it fits, each body cut to its share of the
/// limit when it does not.
pub proof fn inline_text_within_limit(c: ToolContent)
    requires
        text_bytes(c) <= usize::MAX,
    ensures
        kept_bytes(c, budget_total(c)) <= MAX_STREAM_PAYLOAD_BYTES,
{
    if text_bytes(c) > MAX_STREAM_PAYLOAD_BYTES {
        let total = text_bytes(c) as usize;
        lemma_kept_scaled(c, total);
        assert(kept_bytes(c, Some(total)) <= MAX_STREAM_PAYLOAD_BYTES) by (nonlinear_arith)
            requires
                kept_bytes(c, Some(total)) * total <= total * MAX_STREAM_PAYLOAD_BYTES,
                total > 0;
    } else {
        lemma_nothing_cut_without_total(c);
    }
}

/// An answer that fits the payload limit is spilled nowhere and kept whole.
pub proof fn fitting_answer_is_whole(c: ToolContent)
    requires
        text_bytes(c) <= MAX_STREAM_PAYLOAD_BYTES,
    ensures
        budget_total(c) is None,
        spill_texts_of(c, budget_total(c)) =~= Seq::<Seq<char>>::empty(),
        kept_bytes(c, budget_total(c)) == text_bytes(c),
{
    lemma_nothing_cut_without_total(c);
}

} // verus!
