//! The paragraph segmenter: walks a parsed HTML tree and emits an ordered
//! sequence of text paragraphs with positional and linkage metadata.
//!
//! The whole traversal is modelled by spec functions over [`SegModel`]; each
//! executable step is proved equal to its model, so segmentation is a pure
//! function of the input tree.

use vstd::prelude::*;

use crate::tools::all_white;
use crate::tools::concat_all;
use crate::tools::implode;
use crate::tools::normalize_ws;
use crate::tools::sat_add;
use crate::tools::spec_all_white;
use crate::tools::spec_concat;
use crate::tools::spec_implode;
use crate::tools::spec_normalize;
use crate::tools::spec_sat_add;
use crate::tools::str_eq;
use crate::JustextError;

verus! {

/// The category a paragraph is given by the classifier.
#[derive(Clone, Copy, Debug, PartialEq, Eq, Structural)]
pub enum Classification {
    Good,
    Bad,
    NearGood,
    Short,
}

/// One node of the document tree handed to the segmenter.
///
/// The external HTML parser runs outside this crate; the caller converts
/// its tree into this type, with tag names already lower-cased (as the
/// parser interface provides them) and with the `src` attribute looked up
/// for media elements.
pub enum DomNode {
    Element { tag: String, src: Option<String>, children: Vec<DomNode> },
    Text { content: String },
    Comment,
}

/// A parsed document: its root element, if the parser found one.
pub struct Document {
    pub root: Option<DomNode>,
}

/// A contiguous block of extracted text: the unit of classification.
pub struct Paragraph {
    /// Ancestor tag names joined by `.`, recorded when the block closed.
    pub dom_path: String,
    /// The accumulated text fragments; emptied once `text` is formed.
    pub text_nodes: Vec<String>,
    /// The concatenation of the accumulated fragments.
    pub text: String,
    /// The initial category, set once by the classifier.
    pub cfclass: Classification,
    /// The revised category; starts from `cfclass`, changed only by the
    /// revision passes.
    pub finalclass: Classification,
    pub heading: bool,
    pub bullet: bool,
    /// The number of accumulated fragments (an approximation of a word
    /// count, kept for threshold compatibility).
    pub word_count: usize,
    /// Characters contributed while inside an anchor element.
    pub linked_char_count: usize,
    /// Stopwords among the whitespace-delimited tokens of `text`.
    pub stopword_count: usize,
    /// Whitespace-delimited tokens of `text`.
    pub token_count: usize,
    /// The first block tag that contributed to this paragraph.
    pub tag: String,
}

/// The mathematical content of one paragraph.
#[verifier::ext_equal]
pub ghost struct ParaModel {
    pub dom_path: Seq<char>,
    pub text: Seq<char>,
    pub cfclass: Classification,
    pub finalclass: Classification,
    pub heading: bool,
    pub bullet: bool,
    pub word_count: int,
    pub linked_char_count: int,
    pub stopword_count: int,
    pub token_count: int,
    pub tag: Seq<char>,
}

impl Paragraph {
    /// The mathematical content of this paragraph.
    pub open spec fn model(&self) -> ParaModel {
        ParaModel {
            dom_path: self.dom_path@,
            text: self.text@,
            cfclass: self.cfclass,
            finalclass: self.finalclass,
            heading: self.heading,
            bullet: self.bullet,
            word_count: self.word_count as int,
            linked_char_count: self.linked_char_count as int,
            stopword_count: self.stopword_count as int,
            token_count: self.token_count as int,
            tag: self.tag@,
        }
    }
}

impl Paragraph {
    /// The fraction of the text's characters that stood inside anchors,
    /// in thousandths, rounded down; zero for empty text.
    pub fn link_density_permille(&self) -> (r: u32)
        requires
            self.linked_char_count <= self.text@.len(),
        ensures
            r as int == (if self.text@.len() == 0 {
                0int
            } else {
                self.linked_char_count as int * 1000 / self.text@.len() as int
            }),
            r <= 1000,
    {
        let den = self.text.as_str().unicode_len();
        if den == 0 {
            0
        } else {
            let v: u128 = (self.linked_char_count as u128) * 1000 / (den as u128);
            proof {
                assert(self.linked_char_count as int * 1000 / den as int <= 1000 && 0
                    <= self.linked_char_count as int * 1000 && (self.linked_char_count as u128)
                    * 1000 == self.linked_char_count as int * 1000) by (nonlinear_arith)
                    requires
                        0 <= self.linked_char_count <= den,
                        0 < den,
                ;
            }
            v as u32
        }
    }

    /// The fraction of the tokens that are stopwords, in thousandths,
    /// rounded down; zero when there are no tokens.
    pub fn stopword_density_permille(&self) -> (r: u32)
        requires
            self.stopword_count <= self.token_count,
        ensures
            r as int == (if self.token_count == 0 {
                0int
            } else {
                self.stopword_count as int * 1000 / self.token_count as int
            }),
            r <= 1000,
    {
        if self.token_count == 0 {
            0
        } else {
            let v: u128 = (self.stopword_count as u128) * 1000 / (self.token_count as u128);
            proof {
                assert(self.stopword_count as int * 1000 / self.token_count as int <= 1000 && 0
                    <= self.stopword_count as int * 1000 && (self.stopword_count as u128) * 1000
                    == self.stopword_count as int * 1000) by (nonlinear_arith)
                    requires
                        0 <= self.stopword_count <= self.token_count,
                        0 < self.token_count,
                ;
            }
            v as u32
        }
    }
}

/// The models of a paragraph sequence, in order.
pub open spec fn models(ps: Seq<Paragraph>) -> Seq<ParaModel> {
    ps.map_values(|p: Paragraph| p.model())
}

/// Tags whose subtrees are skipped entirely.
pub open spec fn spec_dontcare_tag(t: Seq<char>) -> bool {
    t == "head"@ || t == "script"@
}

/// Block-level tags: finishing such a subtree closes the open paragraph.
pub open spec fn spec_paragraph_tag(t: Seq<char>) -> bool {
    t == "blockquote"@ || t == "caption"@ || t == "center"@ || t == "col"@ || t == "colgroup"@
        || t == "dd"@ || t == "div"@ || t == "dl"@ || t == "dt"@ || t == "fieldset"@
        || t == "form"@ || t == "legend"@ || t == "optgroup"@ || t == "option"@ || t == "p"@
        || t == "pre"@ || t == "table"@ || t == "td"@ || t == "textarea"@ || t == "tfoot"@
        || t == "th"@ || t == "thead"@ || t == "tr"@ || t == "ul"@ || t == "li"@ || t == "h1"@
        || t == "h2"@ || t == "h3"@ || t == "h4"@ || t == "h5"@ || t == "h6"@
}

/// Media elements whose `src` attribute becomes a placeholder token.
pub open spec fn spec_media_tag(t: Seq<char>) -> bool {
    t == "img"@ || t == "video"@ || t == "audio"@
}

/// The bracketed placeholder a media element inserts into the text.
pub open spec fn spec_media_wrap(tag: Seq<char>, u: Seq<char>) -> Seq<char> {
    if tag == "img"@ {
        "<IMAGE>"@ + u + "</IMAGE>"@
    } else if tag == "video"@ {
        "<VIDEO>"@ + u + "</VIDEO>"@
    } else {
        "<AUDIO>"@ + u + "</AUDIO>"@
    }
}

/// The segmenter's traversal state: the dom-path stack, the anchor and
/// line-break flags, the open paragraph accumulator, and the finished
/// paragraphs.
#[verifier::ext_equal]
pub ghost struct SegModel {
    pub dom: Seq<Seq<char>>,
    pub link: bool,
    pub br: bool,
    /// The last element seen was a line break directly inside a bold
    /// element: part of the bold-break heading pattern.
    pub bold_br: bool,
    /// The pending text fragments of the open paragraph.
    pub nodes: Seq<Seq<char>>,
    /// Characters accumulated while inside an anchor (stops at the integer
    /// limit).
    pub linked: int,
    /// The open paragraph was promoted to a heading by the bold-break rule.
    pub heading: bool,
    /// The first block tag that opened the paragraph (`pre` detection).
    pub tag: Seq<char>,
    pub out: Seq<ParaModel>,
}

/// The state a fresh segmenter starts from.
pub open spec fn spec_seg_init() -> SegModel {
    SegModel {
        dom: Seq::empty(),
        link: false,
        br: false,
        bold_br: false,
        nodes: Seq::empty(),
        linked: 0,
        heading: false,
        tag: Seq::empty(),
        out: Seq::empty(),
    }
}

/// Closing the open paragraph: if any text accumulated, a paragraph with
/// the current dom path, joined text, fragment count and linked-character
/// count is appended; the accumulator is reset either way.
pub open spec fn spec_close(m: SegModel) -> SegModel {
    let out2 = if m.nodes.len() > 0 {
        m.out.push(
            ParaModel {
                dom_path: spec_implode(m.dom, "."@),
                text: spec_concat(m.nodes),
                cfclass: Classification::Bad,
                finalclass: Classification::Bad,
                heading: m.heading,
                bullet: false,
                word_count: m.nodes.len() as int,
                linked_char_count: m.linked,
                stopword_count: 0,
                token_count: 0,
                tag: m.tag,
            },
        )
    } else {
        m.out
    };
    SegModel {
        nodes: Seq::empty(),
        linked: 0,
        heading: false,
        tag: Seq::empty(),
        out: out2,
        ..m
    }
}

/// Entering a node at `depth` trims the dom stack to the node's ancestors.
pub open spec fn spec_trim_dom(dom: Seq<Seq<char>>, depth: int) -> Seq<Seq<char>> {
    if dom.len() > depth - 1 {
        dom.take(depth - 1)
    } else {
        dom
    }
}

/// One text node: the fragment is normalized; whitespace-only fragments
/// follow the break-state rules (bold-break heading close, explicit break
/// placeholder, or a space in preformatted context); other fragments are
/// appended, prefixed by a break when one is pending, and count toward the
/// linked characters while inside an anchor.
pub open spec fn spec_text_step(m: SegModel, raw: Seq<char>) -> SegModel {
    let pre = m.tag == "pre"@;
    let content = spec_normalize(raw, pre);
    if spec_all_white(content) {
        if m.br {
            if m.bold_br && m.nodes.len() == 1 {
                spec_close(SegModel { heading: true, ..m })
            } else if m.nodes.len() > 0 {
                SegModel { nodes: m.nodes.push("\n"@), ..m }
            } else {
                m
            }
        } else if pre {
            SegModel { nodes: m.nodes.push(" "@), ..m }
        } else {
            m
        }
    } else {
        let content2 = if m.br {
            seq!['\n'] + content
        } else {
            content
        };
        let linked2 = if m.link {
            spec_sat_add(m.linked, content2.len() as int)
        } else {
            m.linked
        };
        SegModel {
            nodes: m.nodes.push(content2),
            linked: linked2,
            br: false,
            bold_br: false,
            ..m
        }
    }
}

/// Entering an element: the tag joins the dom stack; a second line break in
/// a row force-closes the paragraph; a block tag clears the break state and
/// claims the paragraph's opening tag; other tags update the break, bold
/// and anchor flags; a media element with a `src` attribute appends its
/// placeholder token.
pub open spec fn spec_entry_step(
    m: SegModel,
    tag: Seq<char>,
    src: Option<String>,
    depth: int,
) -> SegModel {
    let m1 = SegModel { dom: spec_trim_dom(m.dom, depth).push(tag), ..m };
    if spec_paragraph_tag(tag) || (tag == "br"@ && m1.br) {
        let m2 = if tag == "br"@ {
            spec_close(m1)
        } else {
            SegModel { br: false, bold_br: false, ..m1 }
        };
        if m2.tag.len() == 0 {
            SegModel { tag, ..m2 }
        } else {
            m2
        }
    } else {
        let is_br = tag == "br"@;
        let m2 = SegModel {
            br: is_br,
            bold_br: is_br && m1.dom.len() >= 2 && m1.dom[m1.dom.len() - 2] == "b"@,
            link: if tag == "a"@ {
                true
            } else {
                m1.link
            },
            ..m1
        };
        match src {
            Some(u) => if spec_media_tag(tag) {
                SegModel { nodes: m2.nodes.push(spec_media_wrap(tag, u@)), ..m2 }
            } else {
                m2
            },
            None => m2,
        }
    }
}

/// Leaving a subtree: a block tag closes the open paragraph; leaving an
/// anchor clears the anchor flag.
pub open spec fn spec_exit_step(m: SegModel, tag: Seq<char>) -> SegModel {
    let m1 = if spec_paragraph_tag(tag) {
        spec_close(m)
    } else {
        m
    };
    if tag == "a"@ {
        SegModel { link: false, ..m1 }
    } else {
        m1
    }
}

/// The depth of a node's children: one more than its own, held at the
/// integer limit (unreachable for any real tree).
pub open spec fn spec_next_depth(depth: int) -> int {
    if depth < usize::MAX {
        depth + 1
    } else {
        depth
    }
}

/// The whole effect of one node: comments are ignored; text nodes trim the
/// dom stack and accumulate; ignored subtrees are skipped entirely; other
/// elements run entry, children in order, then exit.
pub open spec fn spec_node_step(m: SegModel, node: DomNode, depth: int) -> SegModel
    decreases node, 1int,
{
    match node {
        DomNode::Comment => m,
        DomNode::Text { content } => spec_text_step(
            SegModel { dom: spec_trim_dom(m.dom, depth), ..m },
            content@,
        ),
        DomNode::Element { tag, src, children } => {
            if spec_dontcare_tag(tag@) {
                m
            } else {
                let m1 = spec_entry_step(m, tag@, src, depth);
                let m2 = spec_children_steps(
                    m1,
                    children@,
                    spec_next_depth(depth),
                    children@.len() as int,
                );
                spec_exit_step(m2, tag@)
            }
        },
    }
}

/// The effect of the first `n` children of a node, in document order.
pub open spec fn spec_children_steps(m: SegModel, cs: Seq<DomNode>, depth: int, n: int) -> SegModel
    decreases cs, n,
{
    if n <= 0 || cs.len() < n {
        m
    } else {
        spec_node_step(spec_children_steps(m, cs, depth, n - 1), cs[n - 1], depth)
    }
}

/// The whole walk from the root: the root element itself only contributes
/// its exit action, as the traversal starts with its children.
pub open spec fn spec_walk(m: SegModel, root: DomNode) -> SegModel {
    match root {
        DomNode::Element { tag, src, children } => spec_exit_step(
            spec_children_steps(m, children@, 1, children@.len() as int),
            tag@,
        ),
        _ => m,
    }
}

/// Decides whether a subtree with this tag is skipped entirely.
pub fn is_dontcare_tag(t: &str) -> (r: bool)
    ensures
        r == spec_dontcare_tag(t@),
{
    str_eq(t, "head") || str_eq(t, "script")
}

/// Decides whether this tag is block-level.
pub fn is_paragraph_tag(t: &str) -> (r: bool)
    ensures
        r == spec_paragraph_tag(t@),
{
    str_eq(t, "blockquote") || str_eq(t, "caption") || str_eq(t, "center") || str_eq(t, "col")
        || str_eq(t, "colgroup") || str_eq(t, "dd") || str_eq(t, "div") || str_eq(t, "dl")
        || str_eq(t, "dt") || str_eq(t, "fieldset") || str_eq(t, "form") || str_eq(t, "legend")
        || str_eq(t, "optgroup") || str_eq(t, "option") || str_eq(t, "p") || str_eq(t, "pre")
        || str_eq(t, "table") || str_eq(t, "td") || str_eq(t, "textarea") || str_eq(t, "tfoot")
        || str_eq(t, "th") || str_eq(t, "thead") || str_eq(t, "tr") || str_eq(t, "ul")
        || str_eq(t, "li") || str_eq(t, "h1") || str_eq(t, "h2") || str_eq(t, "h3")
        || str_eq(t, "h4") || str_eq(t, "h5") || str_eq(t, "h6")
}

/// Decides whether this tag is a media element.
pub fn is_media_tag(t: &str) -> (r: bool)
    ensures
        r == spec_media_tag(t@),
{
    str_eq(t, "img") || str_eq(t, "video") || str_eq(t, "audio")
}

/// The paragraph segmenter: owns the traversal state for one document.
pub struct Parser {
    /// The finished paragraphs, in document order.
    pub paragraphs: Vec<Paragraph>,
    /// The dom-path stack.
    pub dom: Vec<String>,
    /// Inside an anchor element.
    pub link: bool,
    /// The previous sibling was effectively a line break.
    pub br: bool,
    /// That break stood directly inside a bold element.
    pub bold_br: bool,
    /// The pending text fragments of the open paragraph.
    pub text_nodes: Vec<String>,
    /// Characters accumulated while inside an anchor.
    pub linked_char_count: usize,
    /// The open paragraph was promoted to a heading by the bold-break rule.
    pub heading: bool,
    /// The first block tag that opened the paragraph.
    pub tag: String,
}

impl Parser {
    /// The traversal state this parser holds.
    pub open spec fn model(&self) -> SegModel {
        SegModel {
            dom: self.dom.deep_view(),
            link: self.link,
            br: self.br,
            bold_br: self.bold_br,
            nodes: self.text_nodes.deep_view(),
            linked: self.linked_char_count as int,
            heading: self.heading,
            tag: self.tag@,
            out: models(self.paragraphs@),
        }
    }

    /// A fresh segmenter with no open paragraph and an empty path.
    pub fn new() -> (p: Parser)
        ensures
            p.model() == spec_seg_init(),
    {
        let p = Parser {
            paragraphs: Vec::new(),
            dom: Vec::new(),
            link: false,
            br: false,
            bold_br: false,
            text_nodes: Vec::new(),
            linked_char_count: 0,
            heading: false,
            tag: String::new(),
        };
        proof {
            assert(p.model() =~~= spec_seg_init());
        }
        p
    }

    /// Closes the open paragraph: appends it when it has text, then resets
    /// the accumulator.
    fn close_paragraph(&mut self)
        ensures
            final(self).model() == spec_close(old(self).model()),
    {
        let path = implode(&self.dom, ".");
        if self.text_nodes.len() > 0 {
            let text = concat_all(&self.text_nodes);
            let wc = self.text_nodes.len();
            let p = Paragraph {
                dom_path: path,
                text_nodes: Vec::new(),
                text,
                cfclass: Classification::Bad,
                finalclass: Classification::Bad,
                heading: self.heading,
                bullet: false,
                word_count: wc,
                linked_char_count: self.linked_char_count,
                stopword_count: 0,
                token_count: 0,
                tag: self.tag.clone(),
            };
            let ghost pm = p.model();
            self.paragraphs.push(p);
            proof {
                assert(models(self.paragraphs@) =~= models(old(self).paragraphs@).push(pm));
            }
        }
        self.text_nodes = Vec::new();
        self.linked_char_count = 0;
        self.heading = false;
        self.tag = String::new();
        proof {
            assert(self.model() =~~= spec_close(old(self).model()));
        }
    }

    /// One text node of the document.
    fn text_step(&mut self, raw: &String)
        ensures
            final(self).model() == spec_text_step(old(self).model(), raw@),
    {
        let pre = str_eq(self.tag.as_str(), "pre");
        let content = normalize_ws(raw.as_str(), pre);
        if all_white(content.as_str()) {
            if self.br {
                if self.bold_br && self.text_nodes.len() == 1 {
                    self.heading = true;
                    self.close_paragraph();
                } else if self.text_nodes.len() > 0 {
                    self.text_nodes.push(String::from_str("\n"));
                    proof {
                        assert(self.text_nodes.deep_view() =~= old(
                            self,
                        ).text_nodes.deep_view().push("\n"@));
                    }
                }
            } else if pre {
                self.text_nodes.push(String::from_str(" "));
                proof {
                    assert(self.text_nodes.deep_view() =~= old(self).text_nodes.deep_view().push(
                        " "@,
                    ));
                }
            }
        } else {
            let content2 = if self.br {
                proof {
                    reveal_strlit("\n");
                }
                let mut t = String::from_str("\n");
                t.append(content.as_str());
                proof {
                    assert(t@ =~= seq!['\n'] + spec_normalize(raw@, pre));
                }
                t
            } else {
                content
            };
            let l = content2.as_str().unicode_len();
            if self.link {
                self.linked_char_count = sat_add(self.linked_char_count, l);
            }
            let ghost c2 = content2@;
            self.text_nodes.push(content2);
            self.br = false;
            self.bold_br = false;
            proof {
                assert(self.text_nodes.deep_view() =~= old(self).text_nodes.deep_view().push(c2));
            }
        }
        proof {
            assert(self.model() =~~= spec_text_step(old(self).model(), raw@));
        }
    }

    /// Entering one element of the document.
    fn entry_step(&mut self, tag: &String, src: &Option<String>, depth: usize)
        requires
            depth >= 1,
        ensures
            final(self).model() == spec_entry_step(old(self).model(), tag@, *src, depth as int),
    {
        trim_dom(&mut self.dom, depth);
        self.dom.push(tag.clone());
        proof {
            assert(self.dom.deep_view() =~= spec_trim_dom(
                old(self).dom.deep_view(),
                depth as int,
            ).push(tag@));
        }
        let is_block = is_paragraph_tag(tag.as_str());
        let is_br = str_eq(tag.as_str(), "br");
        if is_block || (is_br && self.br) {
            if is_br {
                self.close_paragraph();
            } else {
                self.br = false;
                self.bold_br = false;
            }
            if self.tag.as_str().unicode_len() == 0 {
                self.tag = tag.clone();
            }
        } else {
            self.br = is_br;
            let n = self.dom.len();
            let in_bold = if is_br && n >= 2 {
                let parent = &self.dom[n - 2];
                proof {
                    assert(self.dom.deep_view()[n - 2] == self.dom@[n - 2]@);
                }
                str_eq(parent.as_str(), "b")
            } else {
                false
            };
            self.bold_br = in_bold;
            if str_eq(tag.as_str(), "a") {
                self.link = true;
            }
            if is_media_tag(tag.as_str()) {
                match src {
                    Some(u) => {
                        let mut ph: String;
                        if str_eq(tag.as_str(), "img") {
                            ph = String::from_str("<IMAGE>");
                            ph.append(u.as_str());
                            ph.append("</IMAGE>");
                        } else if str_eq(tag.as_str(), "video") {
                            ph = String::from_str("<VIDEO>");
                            ph.append(u.as_str());
                            ph.append("</VIDEO>");
                        } else {
                            ph = String::from_str("<AUDIO>");
                            ph.append(u.as_str());
                            ph.append("</AUDIO>");
                        }
                        proof {
                            assert(ph@ == spec_media_wrap(tag@, u@));
                        }
                        let ghost phv = ph@;
                        self.text_nodes.push(ph);
                        proof {
                            assert(self.text_nodes.deep_view() =~= old(
                                self,
                            ).text_nodes.deep_view().push(phv));
                        }
                    },
                    None => {},
                }
            }
        }
        proof {
            assert(self.model() =~~= spec_entry_step(
                old(self).model(),
                tag@,
                *src,
                depth as int,
            ));
        }
    }

    /// Leaving one subtree of the document.
    fn exit_step(&mut self, tag: &String)
        ensures
            final(self).model() == spec_exit_step(old(self).model(), tag@),
    {
        if is_paragraph_tag(tag.as_str()) {
            self.close_paragraph();
        }
        if str_eq(tag.as_str(), "a") {
            self.link = false;
        }
        proof {
            assert(self.model() =~~= spec_exit_step(old(self).model(), tag@));
        }
    }

    /// Handles one node and its whole subtree.
    fn walk_node(&mut self, node: &DomNode, depth: usize)
        requires
            depth >= 1,
        ensures
            final(self).model() == spec_node_step(old(self).model(), *node, depth as int),
        decreases *node, 1int,
    {
        match node {
            DomNode::Comment => {},
            DomNode::Text { content } => {
                trim_dom(&mut self.dom, depth);
                self.text_step(content);
            },
            DomNode::Element { tag, src, children } => {
                if is_dontcare_tag(tag.as_str()) {
                    return ;
                }
                self.entry_step(tag, src, depth);
                let next_depth = if depth < usize::MAX {
                    depth + 1
                } else {
                    depth
                };
                self.walk_children(children, next_depth);
                self.exit_step(tag);
            },
        }
    }

    /// Handles the children of one node, in document order.
    fn walk_children(&mut self, cs: &Vec<DomNode>, depth: usize)
        requires
            depth >= 1,
        ensures
            final(self).model() == spec_children_steps(
                old(self).model(),
                cs@,
                depth as int,
                cs@.len() as int,
            ),
        decreases cs@, 0int,
    {
        let mut i: usize = 0;
        while i < cs.len()
            invariant
                depth >= 1,
                i <= cs.len(),
                self.model() == spec_children_steps(
                    old(self).model(),
                    cs@,
                    depth as int,
                    i as int,
                ),
            decreases cs@.len() - i,
        {
            self.walk_node(&cs[i], depth);
            i += 1;
        }
    }

    /// Walks a whole document, appending its paragraphs in order.
    ///
    /// A document without a root element is rejected; the state is then
    /// unchanged.
    pub fn walk_tree(&mut self, document: &Document) -> (r: Result<(), JustextError>)
        ensures
            match document.root {
                Some(root) => r == Ok::<(), JustextError>(()) && final(self).model() == spec_walk(
                    old(self).model(),
                    root,
                ),
                None => r == Err::<(), JustextError>(JustextError::MissingRoot) && *final(self)
                    == *old(self),
            },
    {
        match &document.root {
            None => Err(JustextError::MissingRoot),
            Some(root) => {
                match root {
                    DomNode::Element { tag, src, children } => {
                        self.walk_children(children, 1);
                        self.exit_step(tag);
                    },
                    _ => {},
                }
                Ok(())
            },
        }
    }
}

/// Pops the dom stack down to the ancestors of a node at `depth`.
fn trim_dom(dom: &mut Vec<String>, depth: usize)
    requires
        depth >= 1,
    ensures
        final(dom).deep_view() == spec_trim_dom(old(dom).deep_view(), depth as int),
{
    proof {
        assert(dom@ =~= old(dom)@.subrange(0, dom@.len() as int));
    }
    while dom.len() >= depth
        invariant
            depth >= 1,
            dom@.len() <= old(dom)@.len(),
            dom@ == old(dom)@.subrange(0, dom@.len() as int),
            dom@.len() < old(dom)@.len() ==> dom@.len() >= depth - 1,
        decreases dom@.len(),
    {
        let ghost pre = dom@;
        dom.pop();
        proof {
            assert(dom@ =~= old(dom)@.subrange(0, dom@.len() as int));
        }
    }
    proof {
        if old(dom)@.len() >= depth {
            assert(dom@.len() == depth - 1);
            assert(dom.deep_view() =~= old(dom).deep_view().take(depth - 1));
        } else {
            assert(dom@.len() == old(dom)@.len());
            assert(dom@ =~= old(dom)@);
            assert(dom.deep_view() =~= old(dom).deep_view());
        }
    }
}

} // verus!
