use markdown_it::parser::cache::Cache;

fn shout(key: &str) -> String {
    key.to_uppercase()
}

fn whisper(key: &str) -> String {
    key.to_lowercase()
}

#[test]
fn cache_renders_once_and_then_returns_the_kept_fragment() {
    let mut cache = Cache::new();
    assert_eq!(cache.get_or_insert("plugin", "Key", shout), "KEY");
    // the fragment is kept: the second render function is not used
    assert_eq!(cache.get_or_insert("plugin", "Key", whisper), "KEY");
    // another plugin has its own fragments
    assert_eq!(cache.get_or_insert("other", "Key", whisper), "key");
}

#[test]
fn cache_sweep_drops_what_was_not_asked_for_again() {
    let mut cache = Cache::new();
    cache.get_or_insert("p", "once", shout);
    cache.get_or_insert("p", "thrice", shout);
    cache.get_or_insert("p", "thrice", shout);
    cache.get_or_insert("p", "thrice", shout);
    // counters: once = 0, thrice = 2
    cache.clean();
    // once is gone and is rendered anew; thrice is still there
    assert_eq!(cache.get_or_insert("p", "once", whisper), "once");
    assert_eq!(cache.get_or_insert("p", "thrice", whisper), "THRICE");
}

#[test]
fn entry_lives_through_fewer_sweeps_than_its_counter() {
    let mut cache = Cache::new();
    // four accesses: the counter is 3
    for _ in 0..4 {
        assert_eq!(cache.get_or_insert("p", "k", shout), "K");
    }
    cache.clean();
    cache.clean();
    // after two sweeps the counter is 1: the fragment is still there, and
    // this access makes it 2
    assert_eq!(cache.get_or_insert("p", "k", whisper), "K");
    cache.clean();
    // 1 again
    assert_eq!(cache.get_or_insert("p", "k", whisper), "K");
    // 2: one sweep leaves 1, the next drops the entry
    cache.clean();
    cache.clean();
    assert_eq!(cache.get_or_insert("p", "k", whisper), "k");
}

#[test]
fn sweep_of_an_empty_cache_is_nothing() {
    let mut cache = Cache::new();
    cache.clean();
    assert_eq!(cache.get_or_insert("a", "b", shout), "B");
}

#[test]
fn fragments_are_kept_by_the_pair_of_plugin_and_key() {
    let mut cache = Cache::new();
    let bracket = |k: &str| format!("<{}>", k);
    assert_eq!(cache.get_or_insert("a_b", "c", bracket), "<c>");
    // another plugin with another key is a miss, though the two join alike
    assert_eq!(cache.get_or_insert("a", "b_c", bracket), "<b_c>");
    assert_eq!(cache.get_or_insert("ab", "c", bracket), "<c>");
    // each pair has its own fragment and its own counter
    assert_eq!(cache.get_or_insert("a_b", "c", whisper), "<c>");
    assert_eq!(cache.get_or_insert("a", "b_c", whisper), "<b_c>");
    assert_eq!(cache.get_or_insert("a_b", "c", whisper), "<c>");
    // counters: ("a_b", "c") 2, ("a", "b_c") 1, ("ab", "c") 0
    cache.clean();
    assert_eq!(cache.get_or_insert("a", "b_c", shout), "B_C");
    assert_eq!(cache.get_or_insert("ab", "c", shout), "C");
    assert_eq!(cache.get_or_insert("a_b", "c", shout), "<c>");
}

#[test]
fn equal_caches_answer_alike() {
    let run = || {
        let mut cache = Cache::new();
        let mut out = Vec::new();
        for (plugin, key) in [("p", "a"), ("q", "a"), ("p", "a"), ("p", "b")] {
            out.push(cache.get_or_insert(plugin, key, shout));
        }
        cache.clean();
        for (plugin, key) in [("p", "a"), ("q", "a"), ("p", "b")] {
            out.push(cache.get_or_insert(plugin, key, whisper));
        }
        out
    };
    assert_eq!(run(), run());
    assert_eq!(run(), vec!["A", "A", "A", "B", "a", "a", "b"]);
}

#[test]
fn render_function_may_be_a_closure() {
    let mut cache = Cache::new();
    let suffix = String::from("!");
    assert_eq!(cache.get_or_insert("p", "k", |key: &str| format!("{}{}", key, suffix)), "k!");
}
