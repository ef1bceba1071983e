use tokenizer_registry::manager::TokenizerManager;
use tokenizer_registry::pipeline::{BaseTokenizer, TextAnalyzer, TokenFilter};

fn texts(manager: &TokenizerManager, name: &str, input: &str) -> Vec<String> {
    let analyzer = manager.get(name).expect("pipeline should be registered");
    analyzer
        .token_stream(input)
        .into_iter()
        .map(|t| t.text)
        .collect()
}

#[test]
fn get_on_fresh_manager_is_absent() {
    let manager = TokenizerManager::new();
    assert!(manager.get("default").is_none());
    assert!(manager.get("").is_none());
}

#[test]
fn get_unknown_name_is_absent() {
    let manager = TokenizerManager::default();
    assert!(manager.get("unknown_name").is_none());
}

#[test]
fn register_then_get_matches_registered_behavior() {
    let manager = TokenizerManager::new();
    let pipeline = TextAnalyzer::new(BaseTokenizer::Simple).filter(TokenFilter::LowerCaser);
    manager.register("mine", pipeline.duplicate());
    let direct: Vec<String> = pipeline
        .token_stream("Foo BAR")
        .into_iter()
        .map(|t| t.text)
        .collect();
    assert_eq!(texts(&manager, "mine", "Foo BAR"), direct);
    assert_eq!(texts(&manager, "mine", "Foo BAR"), vec!["foo", "bar"]);
}

#[test]
fn reregistering_replaces_the_template() {
    let manager = TokenizerManager::new();
    manager.register("name", TextAnalyzer::new(BaseTokenizer::Raw));
    manager.register(
        "name",
        TextAnalyzer::new(BaseTokenizer::Simple).filter(TokenFilter::LowerCaser),
    );
    assert_eq!(texts(&manager, "name", "One Two"), vec!["one", "two"]);
}

#[test]
fn instances_do_not_interfere() {
    let manager = TokenizerManager::default();
    let a = manager.get("default").unwrap();
    let b = manager.get("default").unwrap();
    let first = a.token_stream("Alpha Beta");
    let second = b.token_stream("Gamma DELTA epsilon");
    let fresh_first = manager.get("default").unwrap().token_stream("Alpha Beta");
    let fresh_second = manager
        .get("default")
        .unwrap()
        .token_stream("Gamma DELTA epsilon");
    assert_eq!(first, fresh_first);
    assert_eq!(second, fresh_second);
}

#[test]
fn tokenizing_twice_is_idempotent() {
    let manager = TokenizerManager::default();
    for name in ["raw", "default", "en_stem", "ja"] {
        let once = manager.get(name).unwrap().token_stream("Same Input 123");
        let twice = manager.get(name).unwrap().token_stream("Same Input 123");
        assert_eq!(once, twice, "pipeline {name} not idempotent");
    }
}

#[test]
fn cloned_manager_shares_the_registry() {
    let manager = TokenizerManager::new();
    let clone = manager.clone();
    manager.register("shared", TextAnalyzer::new(BaseTokenizer::Raw));
    assert!(clone.get("shared").is_some());
}

#[test]
fn default_raw_emits_whole_input_unmodified() {
    let manager = TokenizerManager::default();
    let tokens = manager.get("raw").unwrap().token_stream("Hello World");
    assert_eq!(tokens.len(), 1);
    assert_eq!(tokens[0].text, "Hello World");
    assert_eq!(tokens[0].offset_from, 0);
    assert_eq!(tokens[0].offset_to, 11);
    assert_eq!(tokens[0].position, 0);
}

#[test]
fn raw_on_empty_input_emits_one_empty_token() {
    let manager = TokenizerManager::default();
    let tokens = manager.get("raw").unwrap().token_stream("");
    assert_eq!(tokens.len(), 1);
    assert_eq!(tokens[0].text, "");
}

#[test]
fn default_splits_and_lowercases() {
    let manager = TokenizerManager::default();
    assert_eq!(texts(&manager, "default", "Hello World"), vec!["hello", "world"]);
}

#[test]
fn default_on_empty_input_emits_nothing() {
    let manager = TokenizerManager::default();
    assert!(texts(&manager, "default", "").is_empty());
    assert!(texts(&manager, "default", "  ,.  ").is_empty());
}

#[test]
fn default_token_spans_and_positions() {
    let manager = TokenizerManager::default();
    let tokens = manager.get("default").unwrap().token_stream("Hello World");
    assert_eq!(tokens.len(), 2);
    assert_eq!((tokens[0].offset_from, tokens[0].offset_to, tokens[0].position), (0, 5, 0));
    assert_eq!((tokens[1].offset_from, tokens[1].offset_to, tokens[1].position), (6, 11, 1));
}

#[test]
fn default_splits_on_punctuation() {
    let manager = TokenizerManager::default();
    let tokens = manager.get("default").unwrap().token_stream("don't stop");
    let words: Vec<&str> = tokens.iter().map(|t| t.text.as_str()).collect();
    assert_eq!(words, vec!["don", "t", "stop"]);
    let positions: Vec<usize> = tokens.iter().map(|t| t.position).collect();
    assert_eq!(positions, vec![0, 1, 2]);
}

#[test]
fn default_drops_tokens_longer_than_forty_chars() {
    let manager = TokenizerManager::default();
    let over = "a".repeat(41);
    assert!(texts(&manager, "default", &over).is_empty());
    let at_limit = "a".repeat(40);
    assert_eq!(texts(&manager, "default", &at_limit), vec![at_limit.clone()]);
}

#[test]
fn length_filter_skips_without_renumbering_positions() {
    let manager = TokenizerManager::default();
    let long = "b".repeat(41);
    let input = format!("keep {long} also");
    let tokens = manager.get("default").unwrap().token_stream(&input);
    let words: Vec<&str> = tokens.iter().map(|t| t.text.as_str()).collect();
    assert_eq!(words, vec!["keep", "also"]);
    let positions: Vec<usize> = tokens.iter().map(|t| t.position).collect();
    assert_eq!(positions, vec![0, 2]);
}

#[test]
fn en_stem_stems_english_words() {
    let manager = TokenizerManager::default();
    assert_eq!(texts(&manager, "en_stem", "running"), vec!["run"]);
    assert_eq!(
        texts(&manager, "en_stem", "Fruitlessly Running"),
        vec!["fruitless", "run"]
    );
}

#[test]
fn ja_segments_japanese_text() {
    let manager = TokenizerManager::default();
    let tokens = manager
        .get("ja")
        .unwrap()
        .token_stream("\u{79c1}\u{306e}\u{540d}\u{524d}\u{306f}\u{4e2d}\u{91ce}\u{3067}\u{3059}");
    let words: Vec<&str> = tokens.iter().map(|t| t.text.as_str()).collect();
    assert_eq!(
        words,
        vec![
            "\u{79c1}",
            "\u{306e}",
            "\u{540d}\u{524d}",
            "\u{306f}",
            "\u{4e2d}\u{91ce}",
            "\u{3067}\u{3059}"
        ]
    );
    let positions: Vec<usize> = tokens.iter().map(|t| t.position).collect();
    assert_eq!(positions, vec![0, 1, 2, 3, 4, 5]);
    assert_eq!((tokens[2].offset_from, tokens[2].offset_to), (2, 4));
    assert_eq!(tokens.last().unwrap().offset_to, 9);
}

#[test]
fn ja_on_empty_input_emits_nothing() {
    let manager = TokenizerManager::default();
    assert!(texts(&manager, "ja", "").is_empty());
}

#[test]
fn ja_separates_writing_systems() {
    let manager = TokenizerManager::default();
    let tokens = manager
        .get("ja")
        .unwrap()
        .token_stream("Tokyo\u{6771}\u{4eac}\u{30bf}\u{30ef}\u{30fc}");
    let words: Vec<&str> = tokens.iter().map(|t| t.text.as_str()).collect();
    assert_eq!(
        words,
        vec!["Tokyo", "\u{6771}\u{4eac}", "\u{30bf}\u{30ef}\u{30fc}"]
    );
}
