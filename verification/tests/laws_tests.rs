use justext::justtext::Justext;
use justext::justtext::StopList;
use justext::justtext::pass_neargood;
use justext::justtext::pass_short;
use justext::parser::Classification;
use justext::parser::Paragraph;

fn lp(path: &str, txt: &str, linked: usize) -> Paragraph {
    Paragraph {
        dom_path: String::from(path),
        text_nodes: Vec::new(),
        text: String::from(txt),
        cfclass: Classification::Bad,
        finalclass: Classification::Bad,
        heading: false,
        bullet: false,
        word_count: 0,
        linked_char_count: linked,
        stopword_count: 0,
        token_count: 0,
        tag: String::new(),
    }
}

fn mixed_sequence() -> Vec<Paragraph> {
    let mut good = String::new();
    for _ in 0..10 {
        good.push_str("the ");
    }
    for _ in 0..14 {
        good.push_str("bbbbbbbbbbbbbbbb ");
    }
    good.push_str("cccccccccccccccccccccc");
    vec![
        lp("body.h1", "Overview", 0),
        lp("body.p", good.as_str(), 0),
        lp("body.p", "a short middle paragraph here", 0),
        lp("body.p", good.as_str(), 3),
        lp("body.div", "menu menu menu menu menu menu menu menu menu menu menu menu menu", 0),
    ]
}

fn stoplist_en() -> StopList {
    StopList::from_words(vec![String::from("the")])
}

#[test]
fn rerunning_passes_three_and_four_changes_nothing() {
    let jt = Justext::new();
    let mut ps = mixed_sequence();
    let sl = stoplist_en();
    jt.classify_paragraphs(&mut ps, &sl);
    jt.revise_paragraph_classification(&mut ps, 200);
    let snapshot: Vec<Classification> = ps.iter().map(|p| p.finalclass).collect();
    // every class is settled after the revision
    for c in &snapshot {
        assert!(*c == Classification::Good || *c == Classification::Bad);
    }
    pass_short(&mut ps);
    pass_neargood(&mut ps);
    let after: Vec<Classification> = ps.iter().map(|p| p.finalclass).collect();
    assert_eq!(snapshot, after);
}

#[test]
fn identical_inputs_give_identical_classifications() {
    let jt = Justext::new();
    let sl = stoplist_en();
    let mut a = mixed_sequence();
    let mut b = mixed_sequence();
    jt.classify_paragraphs(&mut a, &sl);
    jt.revise_paragraph_classification(&mut a, 200);
    jt.classify_paragraphs(&mut b, &sl);
    jt.revise_paragraph_classification(&mut b, 200);
    for (x, y) in a.iter().zip(b.iter()) {
        assert_eq!(x.cfclass, y.cfclass);
        assert_eq!(x.finalclass, y.finalclass);
    }
    let (out_a, found_a) = jt.output_default(&a);
    let (out_b, found_b) = jt.output_default(&b);
    assert_eq!(out_a, out_b);
    assert_eq!(found_a, found_b);
}

#[test]
fn densities_stay_within_bounds_across_the_pipeline() {
    let jt = Justext::new();
    let mut ps = mixed_sequence();
    let sl = stoplist_en();
    jt.classify_paragraphs(&mut ps, &sl);
    jt.revise_paragraph_classification(&mut ps, 200);
    for p in &ps {
        assert!(p.stopword_count <= p.token_count);
        assert!(p.linked_char_count <= p.text.chars().count());
        assert!(p.link_density_permille() <= 1000);
        assert!(p.stopword_density_permille() <= 1000);
    }
}
