//! The stated properties of the library, proved once and for all: density
//! bounds, idempotence of the revision, determinism, and the empty-output
//! guarantees.

use vstd::prelude::*;

use crate::justtext::Justext;
use crate::justtext::spec_any_good;
use crate::justtext::spec_classified;
use crate::justtext::spec_classify_seq;
use crate::justtext::spec_output_plain;
use crate::justtext::spec_pass1;
use crate::justtext::spec_pass2;
use crate::justtext::spec_pass2_upto;
use crate::justtext::spec_pass3;
use crate::justtext::spec_pass4;
use crate::justtext::spec_pass4_upto;
use crate::justtext::spec_pass5;
use crate::justtext::spec_pass5_upto;
use crate::justtext::spec_pipeline;
use crate::justtext::spec_revise;
use crate::justtext::spec_stopword_count_upto;
use crate::justtext::spec_token_count_upto;
use crate::parser::Classification;
use crate::parser::DomNode;
use crate::parser::ParaModel;
use crate::parser::SegModel;
use crate::parser::spec_children_steps;
use crate::parser::spec_close;
use crate::parser::spec_entry_step;
use crate::parser::spec_exit_step;
use crate::parser::spec_node_step;
use crate::parser::spec_seg_init;
use crate::parser::spec_text_step;
use crate::parser::spec_walk;
use crate::tools::lemma_concat_push;
use crate::tools::spec_concat;

verus! {

/// The count invariants behind the density bounds: the linked characters
/// never exceed the text length, and the stopwords never exceed the
/// tokens.  In rational terms: `0 <= link_density <= 1` and
/// `0 <= stopword_density <= 1`.
pub open spec fn wf_counts(p: ParaModel) -> bool {
    0 <= p.linked_char_count <= p.text.len() && 0 <= p.stopword_count <= p.token_count
}

/// The segmenter's invariant: the open paragraph's linked count is bounded
/// by its accumulated text, and every finished paragraph satisfies the
/// count invariants.
pub open spec fn seg_wf(m: SegModel) -> bool {
    0 <= m.linked <= spec_concat(m.nodes).len() && forall|i: int|
        0 <= i < m.out.len() ==> wf_counts(#[trigger] m.out[i])
}

/// Closing a paragraph preserves the segmenter invariant.
proof fn lemma_close_wf(m: SegModel)
    requires
        seg_wf(m),
    ensures
        seg_wf(spec_close(m)),
{
}

/// A text node preserves the segmenter invariant.
proof fn lemma_text_wf(m: SegModel, raw: Seq<char>)
    requires
        seg_wf(m),
    ensures
        seg_wf(spec_text_step(m, raw)),
{
    let pre = m.tag == "pre"@;
    let content = crate::tools::spec_normalize(raw, pre);
    if crate::tools::spec_all_white(content) {
        if m.br {
            if m.bold_br && m.nodes.len() == 1 {
                lemma_close_wf(SegModel { heading: true, ..m });
            } else if m.nodes.len() > 0 {
                lemma_concat_push(m.nodes, "\n"@);
            }
        } else if pre {
            lemma_concat_push(m.nodes, " "@);
        }
    } else {
        let content2 = if m.br {
            seq!['\n'] + content
        } else {
            content
        };
        lemma_concat_push(m.nodes, content2);
    }
}

/// Entering an element preserves the segmenter invariant.
proof fn lemma_entry_wf(m: SegModel, tag: Seq<char>, src: Option<String>, depth: int)
    requires
        seg_wf(m),
    ensures
        seg_wf(spec_entry_step(m, tag, src, depth)),
{
    let m1 = SegModel { dom: crate::parser::spec_trim_dom(m.dom, depth).push(tag), ..m };
    if crate::parser::spec_paragraph_tag(tag) || (tag == "br"@ && m1.br) {
        if tag == "br"@ {
            lemma_close_wf(m1);
        }
    } else {
        match src {
            Some(u) => {
                if crate::parser::spec_media_tag(tag) {
                    lemma_concat_push(m.nodes, crate::parser::spec_media_wrap(tag, u@));
                }
            },
            None => {},
        }
    }
}

/// Leaving a subtree preserves the segmenter invariant.
proof fn lemma_exit_wf(m: SegModel, tag: Seq<char>)
    requires
        seg_wf(m),
    ensures
        seg_wf(spec_exit_step(m, tag)),
{
    if crate::parser::spec_paragraph_tag(tag) {
        lemma_close_wf(m);
    }
}

/// One node's whole effect preserves the segmenter invariant.
proof fn lemma_node_wf(m: SegModel, node: DomNode, depth: int)
    requires
        seg_wf(m),
    ensures
        seg_wf(spec_node_step(m, node, depth)),
    decreases node, 1int,
{
    match node {
        DomNode::Comment => {},
        DomNode::Text { content } => {
            lemma_text_wf(
                SegModel { dom: crate::parser::spec_trim_dom(m.dom, depth), ..m },
                content@,
            );
        },
        DomNode::Element { tag, src, children } => {
            if !crate::parser::spec_dontcare_tag(tag@) {
                lemma_entry_wf(m, tag@, src, depth);
                let m1 = spec_entry_step(m, tag@, src, depth);
                lemma_children_wf(
                    m1,
                    children@,
                    crate::parser::spec_next_depth(depth),
                    children@.len() as int,
                );
                let m2 = spec_children_steps(
                    m1,
                    children@,
                    crate::parser::spec_next_depth(depth),
                    children@.len() as int,
                );
                lemma_exit_wf(m2, tag@);
            }
        },
    }
}

/// The first `n` children's effect preserves the segmenter invariant.
proof fn lemma_children_wf(m: SegModel, cs: Seq<DomNode>, depth: int, n: int)
    requires
        seg_wf(m),
    ensures
        seg_wf(spec_children_steps(m, cs, depth, n)),
    decreases cs, n,
{
    if n <= 0 || cs.len() < n {
    } else {
        lemma_children_wf(m, cs, depth, n - 1);
        lemma_node_wf(spec_children_steps(m, cs, depth, n - 1), cs[n - 1], depth);
    }
}

/// A whole walk from a fresh segmenter leaves every paragraph with sound
/// counts.
pub proof fn lemma_walk_wf(root: DomNode)
    ensures
        seg_wf(spec_walk(spec_seg_init(), root)),
{
    assert(spec_concat(spec_seg_init().nodes).len() == 0);
    assert(seg_wf(spec_seg_init()));
    match root {
        DomNode::Element { tag, src, children } => {
            lemma_children_wf(spec_seg_init(), children@, 1, children@.len() as int);
            lemma_exit_wf(
                spec_children_steps(spec_seg_init(), children@, 1, children@.len() as int),
                tag@,
            );
        },
        _ => {},
    }
}

/// Among the first `n` positions there are at least as many tokens as
/// stopwords, and no more tokens than positions.
proof fn lemma_counts_bounded(s: Seq<char>, dict: Set<Seq<char>>, n: int)
    ensures
        0 <= spec_stopword_count_upto(s, dict, n) <= spec_token_count_upto(s, n),
        spec_token_count_upto(s, n) <= (if n >= 0 { n } else { 0 }),
    decreases n,
{
    if n > 0 {
        lemma_counts_bounded(s, dict, n - 1);
    }
}

/// The initial classification leaves the counts sound whenever the linked
/// characters are within the text.
proof fn lemma_classified_wf(p: ParaModel, dict: Set<Seq<char>>, cfg: Justext)
    requires
        0 <= p.linked_char_count <= p.text.len(),
    ensures
        wf_counts(spec_classified(p, dict, cfg)),
{
    lemma_counts_bounded(p.text, dict, p.text.len() as int);
}

/// Pass two never touches a paragraph's counts.
proof fn lemma_pass2_wf(ms: Seq<ParaModel>, n: int, max: int)
    requires
        forall|i: int| 0 <= i < ms.len() ==> wf_counts(#[trigger] ms[i]),
    ensures
        spec_pass2_upto(ms, n, max).len() == ms.len(),
        forall|i: int|
            0 <= i < ms.len() ==> wf_counts(#[trigger] spec_pass2_upto(ms, n, max)[i]),
    decreases n,
{
    if n > 0 {
        lemma_pass2_wf(ms, n - 1, max);
    }
}

/// Pass three never touches a paragraph's counts.
proof fn lemma_pass3_wf(ms: Seq<ParaModel>)
    requires
        forall|i: int| 0 <= i < ms.len() ==> wf_counts(#[trigger] ms[i]),
    ensures
        spec_pass3(ms).len() == ms.len(),
        forall|i: int| 0 <= i < ms.len() ==> wf_counts(#[trigger] spec_pass3(ms)[i]),
{
}

/// Pass four never touches a paragraph's counts.
proof fn lemma_pass4_wf(ms: Seq<ParaModel>, n: int)
    requires
        forall|i: int| 0 <= i < ms.len() ==> wf_counts(#[trigger] ms[i]),
    ensures
        spec_pass4_upto(ms, n).len() == ms.len(),
        forall|i: int| 0 <= i < ms.len() ==> wf_counts(#[trigger] spec_pass4_upto(ms, n)[i]),
    decreases n,
{
    if n > 0 {
        lemma_pass4_wf(ms, n - 1);
    }
}

/// Pass five never touches a paragraph's counts.
proof fn lemma_pass5_wf(ms: Seq<ParaModel>, n: int, max: int)
    requires
        forall|i: int| 0 <= i < ms.len() ==> wf_counts(#[trigger] ms[i]),
    ensures
        spec_pass5_upto(ms, n, max).len() == ms.len(),
        forall|i: int|
            0 <= i < ms.len() ==> wf_counts(#[trigger] spec_pass5_upto(ms, n, max)[i]),
    decreases n,
{
    if n > 0 {
        lemma_pass5_wf(ms, n - 1, max);
    }
}

/// Every paragraph the whole pipeline produces from a document has both
/// densities within bounds: the stopword count never exceeds the token
/// count, and the linked characters never exceed the text length, so
/// `0 <= stopword_density <= 1` and `0 <= link_density <= 1`.
pub proof fn law_density_bounds(root: DomNode, dict: Set<Seq<char>>, cfg: Justext)
    ensures
        forall|i: int|
            0 <= i < spec_pipeline(spec_walk(spec_seg_init(), root).out, dict, cfg).len()
                ==> wf_counts(
                #[trigger] spec_pipeline(spec_walk(spec_seg_init(), root).out, dict, cfg)[i],
            ),
{
    lemma_walk_wf(root);
    let ms = spec_walk(spec_seg_init(), root).out;
    let classified = spec_classify_seq(ms, dict, cfg);
    assert forall|i: int| 0 <= i < classified.len() implies wf_counts(
        #[trigger] classified[i],
    ) by {
        lemma_classified_wf(ms[i], dict, cfg);
    }
    let r1 = spec_pass1(classified);
    assert(r1.len() == classified.len());
    assert(forall|i: int| 0 <= i < r1.len() ==> wf_counts(#[trigger] r1[i]));
    let max = cfg.max_heading_distance as int;
    let r2 = spec_pass2(r1, max);
    lemma_pass2_wf(r1, r1.len() as int, max);
    let r3 = spec_pass3(r2);
    lemma_pass3_wf(r2);
    let r4 = spec_pass4(r3);
    lemma_pass4_wf(r3, r3.len() as int);
    lemma_pass5_wf(r4, r4.len() as int, max);
}

/// Identical inputs and configuration give identical classifications and
/// output: the whole pipeline is a function of the paragraph sequence, the
/// dictionary and the thresholds alone.
pub proof fn law_deterministic(
    ms1: Seq<ParaModel>,
    ms2: Seq<ParaModel>,
    dict1: Set<Seq<char>>,
    dict2: Set<Seq<char>>,
    cfg1: Justext,
    cfg2: Justext,
)
    requires
        ms1 == ms2,
        dict1 == dict2,
        cfg1 == cfg2,
    ensures
        spec_pipeline(ms1, dict1, cfg1) == spec_pipeline(ms2, dict2, cfg2),
        spec_output_plain(spec_pipeline(ms1, dict1, cfg1)) == spec_output_plain(
            spec_pipeline(ms2, dict2, cfg2),
        ),
{
}

/// An empty paragraph sequence renders to empty output with the
/// content-found flag off.
pub proof fn law_empty_input()
    ensures
        spec_output_plain(Seq::<ParaModel>::empty()) == Seq::<char>::empty(),
        !spec_any_good(Seq::<ParaModel>::empty()),
{
}

/// A sequence with no `Good` paragraph renders to empty plain output and
/// reports that no content was found.
pub proof fn law_no_good_empty_output(ms: Seq<ParaModel>)
    requires
        forall|i: int|
            0 <= i < ms.len() ==> (#[trigger] ms[i]).finalclass != Classification::Good,
    ensures
        spec_output_plain(ms) == Seq::<char>::empty(),
        !spec_any_good(ms),
    decreases ms.len(),
{
    if ms.len() > 0 {
        assert(forall|i: int|
            0 <= i < ms.drop_last().len() ==> (#[trigger] ms.drop_last()[i]).finalclass
                != Classification::Good);
        law_no_good_empty_output(ms.drop_last());
        assert(spec_output_plain(ms) =~= Seq::<char>::empty());
    }
}

/// Every revised class is settled: `Good` or `Bad`, nothing pending.
pub open spec fn converged(ms: Seq<ParaModel>) -> bool {
    forall|i: int|
        0 <= i < ms.len() ==> ((#[trigger] ms[i]).finalclass == Classification::Good
            || ms[i].finalclass == Classification::Bad)
}

/// Pass three leaves no `Short` paragraph behind.
proof fn lemma_pass3_no_short(ms: Seq<ParaModel>)
    ensures
        spec_pass3(ms).len() == ms.len(),
        forall|i: int|
            0 <= i < ms.len() ==> (#[trigger] spec_pass3(ms)[i]).finalclass
                != Classification::Short,
{
}

/// Pass four settles every position it sweeps and leaves no `Short`
/// behind.
proof fn lemma_pass4_settles(ms: Seq<ParaModel>, n: int)
    requires
        forall|i: int|
            0 <= i < ms.len() ==> (#[trigger] ms[i]).finalclass != Classification::Short,
    ensures
        spec_pass4_upto(ms, n).len() == ms.len(),
        forall|i: int|
            0 <= i < ms.len() ==> (#[trigger] spec_pass4_upto(ms, n)[i]).finalclass
                != Classification::Short,
        forall|i: int|
            n <= i < ms.len() ==> #[trigger] spec_pass4_upto(ms, n)[i] == ms[i],
        forall|i: int|
            0 <= i < n && i < ms.len() ==> ((#[trigger] spec_pass4_upto(ms, n)[i]).finalclass
                == Classification::Good || spec_pass4_upto(ms, n)[i].finalclass
                == Classification::Bad),
    decreases n,
{
    if n > 0 {
        lemma_pass4_settles(ms, n - 1);
    }
}

/// Pass five preserves a settled sequence.
proof fn lemma_pass5_settled(ms: Seq<ParaModel>, n: int, max: int)
    requires
        converged(ms),
    ensures
        spec_pass5_upto(ms, n, max).len() == ms.len(),
        converged(spec_pass5_upto(ms, n, max)),
    decreases n,
{
    if n > 0 {
        lemma_pass5_settled(ms, n - 1, max);
    }
}

/// On a sequence with no `Short` paragraph, pass three changes nothing.
proof fn lemma_pass3_identity(ms: Seq<ParaModel>)
    requires
        forall|i: int|
            0 <= i < ms.len() ==> (#[trigger] ms[i]).finalclass != Classification::Short,
    ensures
        spec_pass3(ms) == ms,
{
    assert(spec_pass3(ms) =~= ms);
}

/// On a sequence with no `NearGood` paragraph, pass four changes nothing.
proof fn lemma_pass4_identity(ms: Seq<ParaModel>, n: int)
    requires
        forall|i: int|
            0 <= i < ms.len() ==> (#[trigger] ms[i]).finalclass != Classification::NearGood,
    ensures
        spec_pass4_upto(ms, n) == ms,
    decreases n,
{
    if n > 0 {
        lemma_pass4_identity(ms, n - 1);
    }
}

/// After a full revision every class is settled.
pub proof fn law_revision_settles(ms: Seq<ParaModel>, max: int)
    ensures
        converged(spec_revise(ms, max)),
{
    let r2 = spec_pass2(spec_pass1(ms), max);
    let r3 = spec_pass3(r2);
    lemma_pass3_no_short(r2);
    lemma_pass4_settles(r3, r3.len() as int);
    let r4 = spec_pass4(r3);
    lemma_pass5_settled(r4, r4.len() as int, max);
}

/// The revision is idempotent: running passes three and four again on an
/// already-converged sequence changes nothing.
pub proof fn law_revision_idempotent(ms: Seq<ParaModel>, max: int)
    ensures
        spec_pass3(spec_revise(ms, max)) == spec_revise(ms, max),
        spec_pass4(spec_pass3(spec_revise(ms, max))) == spec_revise(ms, max),
{
    law_revision_settles(ms, max);
    let r = spec_revise(ms, max);
    lemma_pass3_identity(r);
    lemma_pass4_identity(r, r.len() as int);
}

} // verus!
