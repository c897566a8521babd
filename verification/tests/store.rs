use markdown_it::parser::extset::{MarkdownItExtSet, RootExtSet};
use markdown_it::parser::root::Root;
use markdown_it::plugins::gfm::heading_anchors::{AnchorPosition, HeadingAnchorOptions};
use markdown_it::plugins::pandoc::footnote::FootnoteMap;

#[test]
fn get_or_insert_default_twice_gives_the_same_instance() {
    let mut store = RootExtSet::new();
    assert!(store.get::<FootnoteMap>().is_none());
    // what is written through the first request is seen through the second
    assert_eq!(store.get_or_insert_default::<FootnoteMap>().add_def("a"), Some(1));
    assert_eq!(store.get_or_insert_default::<FootnoteMap>().add_def("a"), None);
    assert_eq!(store.get_or_insert_default::<FootnoteMap>().add_def("b"), Some(2));
    assert_eq!(store.get::<FootnoteMap>().unwrap().referenced_by(1), Vec::<usize>::new());
}

#[test]
fn a_new_root_has_an_empty_store() {
    let root = Root::new("text".to_string());
    assert_eq!(root.content, "text");
    assert!(root.ext.get::<FootnoteMap>().is_none());
}

#[test]
fn insert_replaces_and_take_removes() {
    let mut store = RootExtSet::new();
    assert!(store.take::<FootnoteMap>().is_none());
    let mut first = FootnoteMap::new();
    first.add_def("a");
    assert!(store.insert(first).is_none());
    // a second insert replaces the first value, and hands it back
    let replaced = store.insert(FootnoteMap::new()).unwrap();
    assert_eq!(replaced.ref_count(), 0);
    let mut replaced = replaced;
    assert_eq!(replaced.add_def("a"), None);
    assert_eq!(store.get_or_insert_default::<FootnoteMap>().add_def("a"), Some(1));
    // take, change, put back
    let mut taken = store.take::<FootnoteMap>().unwrap();
    assert!(store.get::<FootnoteMap>().is_none());
    assert_eq!(taken.add_ref("a"), Some((1, 1)));
    store.insert(taken);
    assert_eq!(store.get::<FootnoteMap>().unwrap().referenced_by(1), vec![1]);
}

#[test]
fn parser_store_keeps_one_value_for_each_type() {
    let mut store = MarkdownItExtSet::new();
    assert!(store.get::<HeadingAnchorOptions>().is_none());
    {
        let options = store.get_or_insert_default::<HeadingAnchorOptions>();
        assert_eq!(options.min_level, 1);
        assert_eq!(options.max_level, 6);
        assert!(!options.id_on_heading);
        assert_eq!(options.position, AnchorPosition::Start);
        assert_eq!(options.classes, vec!["anchor".to_string()]);
        assert!(options.inner_html.starts_with("<svg class=\"octicon octicon-link\""));
        assert!(options.inner_html.ends_with("</path></svg>"));
        assert_eq!(options.inner_html.len(), 655);
        options.max_level = 3;
    }
    assert_eq!(store.get_or_insert_default::<HeadingAnchorOptions>().max_level, 3);
    let mut other = HeadingAnchorOptions::default();
    other.min_level = 2;
    let before = store.insert(other).unwrap();
    assert_eq!(before.max_level, 3);
    assert_eq!(store.get::<HeadingAnchorOptions>().unwrap().min_level, 2);
    assert_eq!(store.take::<HeadingAnchorOptions>().unwrap().min_level, 2);
    assert!(store.get::<HeadingAnchorOptions>().is_none());
}
