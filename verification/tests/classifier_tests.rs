use justext::JustextError;
use justext::justtext::Justext;
use justext::justtext::StopList;
use justext::justtext::count_tokens;
use justext::justtext::get_next_neighbour;
use justext::justtext::get_prev_neighbour;
use justext::parser::Classification;
use justext::parser::Paragraph;

fn para(path: &str, txt: &str, linked: usize) -> Paragraph {
    Paragraph {
        dom_path: String::from(path),
        text_nodes: Vec::new(),
        text: String::from(txt),
        cfclass: Classification::Bad,
        finalclass: Classification::Bad,
        heading: false,
        bullet: false,
        word_count: 0,
        linked_char_count: linked,
        stopword_count: 0,
        token_count: 0,
        tag: String::new(),
    }
}

/// 300 characters, 25 tokens, 10 of them the stopword `the`: stopword
/// density 0.4, link density 0.
fn good_text() -> String {
    let mut t = String::new();
    for _ in 0..10 {
        t.push_str("the ");
    }
    for _ in 0..14 {
        t.push_str("bbbbbbbbbbbbbbbb ");
    }
    t.push_str("cccccccccccccccccccccc");
    assert_eq!(t.chars().count(), 300);
    t
}

fn english() -> StopList {
    StopList::from_words(vec![String::from("the"), String::from("of")])
}

#[test]
fn dense_long_paragraph_is_good() {
    let jt = Justext::new();
    let mut ps = vec![para("body.p", good_text().as_str(), 0)];
    let sl = english();
    jt.classify_paragraphs(&mut ps, &sl);
    jt.revise_paragraph_classification(&mut ps, 200);
    assert_eq!(ps[0].cfclass, Classification::Good);
    assert_eq!(ps[0].finalclass, Classification::Good);
    assert_eq!(ps[0].token_count, 25);
    assert_eq!(ps[0].stopword_count, 10);
    let (out, found) = jt.output_default(&ps);
    assert!(found);
    assert_eq!(out, format!("{}\n", good_text()));
}

#[test]
fn short_heading_before_good_content_is_promoted() {
    let jt = Justext::new();
    let mut ps = vec![para("body.h1", "Overview", 0), para("body.p", good_text().as_str(), 0)];
    let sl = english();
    jt.classify_paragraphs(&mut ps, &sl);
    assert_eq!(ps[0].cfclass, Classification::Short);
    assert!(ps[0].heading);
    jt.revise_paragraph_classification(&mut ps, 200);
    assert_eq!(ps[0].finalclass, Classification::Good);
    assert_eq!(ps[1].finalclass, Classification::Good);
}

#[test]
fn high_link_density_is_bad_regardless() {
    let jt = Justext::new();
    let mut txt = String::new();
    for _ in 0..25 {
        txt.push_str("the ");
    }
    assert_eq!(txt.chars().count(), 100);
    // every token is a stopword, yet half the characters are linked
    let mut ps = vec![para("body.p", txt.as_str(), 50)];
    let sl = english();
    jt.classify_paragraphs(&mut ps, &sl);
    assert_eq!(ps[0].cfclass, Classification::Bad);
}

#[test]
fn short_between_good_neighbours_becomes_good() {
    let jt = Justext::new();
    let mut ps = vec![
        para("body.p", good_text().as_str(), 0),
        para("body.p", "exactly forty characters of neutral text", 0),
        para("body.p", good_text().as_str(), 0),
    ];
    assert_eq!(ps[1].text.chars().count(), 40);
    let sl = english();
    jt.classify_paragraphs(&mut ps, &sl);
    assert_eq!(ps[1].cfclass, Classification::Short);
    jt.revise_paragraph_classification(&mut ps, 200);
    assert_eq!(ps[1].finalclass, Classification::Good);
}

#[test]
fn short_linked_paragraph_is_bad() {
    let jt = Justext::new();
    let mut ps = vec![para("body.p", "a short linked snippet", 5)];
    let sl = english();
    jt.classify_paragraphs(&mut ps, &sl);
    assert_eq!(ps[0].cfclass, Classification::Bad);
}

#[test]
fn copyright_marker_is_bad() {
    let jt = Justext::new();
    let mut with_sign = vec![para("body.p", good_text().replace("the", "t\u{a9}e").as_str(), 0)];
    let sl = english();
    jt.classify_paragraphs(&mut with_sign, &sl);
    assert_eq!(with_sign[0].cfclass, Classification::Bad);
    let mut with_entity = vec![para("body.p", format!("{} &copy", good_text()).as_str(), 0)];
    jt.classify_paragraphs(&mut with_entity, &sl);
    assert_eq!(with_entity[0].cfclass, Classification::Bad);
}

#[test]
fn select_path_is_bad() {
    let jt = Justext::new();
    let mut ps = vec![para("body.form.select", good_text().as_str(), 0)];
    let sl = english();
    jt.classify_paragraphs(&mut ps, &sl);
    assert_eq!(ps[0].cfclass, Classification::Bad);
}

#[test]
fn middling_density_is_neargood() {
    let jt = Justext::new();
    // 32 tokens, 10 stopwords: density 0.3125, between the two bounds
    let mut txt = String::new();
    for _ in 0..10 {
        txt.push_str("the ");
    }
    for _ in 0..21 {
        txt.push_str("zz ");
    }
    txt.push_str("zz");
    let mut ps = vec![para("body.p", txt.as_str(), 0)];
    let sl = english();
    jt.classify_paragraphs(&mut ps, &sl);
    assert_eq!(ps[0].token_count, 32);
    assert_eq!(ps[0].cfclass, Classification::NearGood);
}

#[test]
fn no_headings_disables_heading_flag() {
    let jt = Justext::with_config(70, 200, 300, 320, 200, true, 200).unwrap();
    let mut ps = vec![para("body.h1", "Overview", 0)];
    let sl = english();
    jt.classify_paragraphs(&mut ps, &sl);
    assert!(!ps[0].heading);
}

#[test]
fn malformed_config_is_rejected() {
    assert!(matches!(
        Justext::with_config(70, 200, 400, 320, 200, false, 200),
        Err(JustextError::MalformedConfig)
    ));
    assert!(matches!(
        Justext::with_config(70, 200, 300, 1200, 200, false, 200),
        Err(JustextError::MalformedConfig)
    ));
    assert!(matches!(
        Justext::with_config(70, 200, 300, 320, 1200, false, 200),
        Err(JustextError::MalformedConfig)
    ));
    assert!(Justext::with_config(70, 200, 300, 320, 200, false, 200).is_ok());
}

#[test]
fn heading_out_of_reach_stays_bad_until_pass_five_finds_good() {
    let jt = Justext::new();
    // 32 tokens, 10 stopwords, 105 characters: NearGood on its own
    let mut ng = String::new();
    for _ in 0..10 {
        ng.push_str("the ");
    }
    for _ in 0..21 {
        ng.push_str("zz ");
    }
    ng.push_str("zz");
    assert_eq!(ng.chars().count(), 105);
    let mut ps = vec![
        para("body.h1", "Overview", 0),
        para("body.p", ng.as_str(), 0),
        para("body.p", good_text().as_str(), 0),
    ];
    let sl = english();
    jt.classify_paragraphs(&mut ps, &sl);
    assert_eq!(ps[0].cfclass, Classification::Short);
    assert_eq!(ps[1].cfclass, Classification::NearGood);
    // the near-good block is longer than the heading distance, so the
    // heading is not promoted in the early pass; once the block itself is
    // promoted to good, the late pass rescues the heading
    jt.revise_paragraph_classification(&mut ps, 100);
    assert_eq!(ps[1].finalclass, Classification::Good);
    assert_eq!(ps[0].finalclass, Classification::Good);
}

#[test]
fn neighbour_scans_skip_pending_classes() {
    let mut ps = vec![
        para("body.p", "a", 0),
        para("body.p", "b", 0),
        para("body.p", "c", 0),
        para("body.p", "d", 0),
    ];
    ps[0].finalclass = Classification::Good;
    ps[1].finalclass = Classification::Short;
    ps[2].finalclass = Classification::NearGood;
    ps[3].finalclass = Classification::Bad;
    assert_eq!(get_prev_neighbour(2, &ps, true), Classification::Good);
    assert_eq!(get_next_neighbour(1, &ps, true), Classification::Bad);
    assert_eq!(get_next_neighbour(1, &ps, false), Classification::NearGood);
    assert_eq!(get_prev_neighbour(0, &ps, true), Classification::Bad);
    assert_eq!(get_next_neighbour(3, &ps, true), Classification::Bad);
}

#[test]
fn token_counting_matches_hand_count() {
    let sl = english();
    let (tokens, stops) = count_tokens("the cat sat of the  mat", &sl);
    assert_eq!(tokens, 6);
    assert_eq!(stops, 3);
    let (t2, s2) = count_tokens("   ", &sl);
    assert_eq!(t2, 0);
    assert_eq!(s2, 0);
}

#[test]
fn density_getters_report_thousandths() {
    let mut p = para("body.p", "abcdefghij", 5);
    p.stopword_count = 1;
    p.token_count = 3;
    assert_eq!(p.link_density_permille(), 500);
    assert_eq!(p.stopword_density_permille(), 333);
    let q = para("body.p", "", 0);
    assert_eq!(q.link_density_permille(), 0);
    assert_eq!(q.stopword_density_permille(), 0);
}

#[test]
fn list_item_path_sets_bullet() {
    let jt = Justext::new();
    let mut ps = vec![para("body.ul.li", good_text().as_str(), 0)];
    let sl = english();
    jt.classify_paragraphs(&mut ps, &sl);
    assert!(ps[0].bullet);
    assert!(!ps[0].heading);
    assert_eq!(ps[0].cfclass, Classification::Good);
}
