use tokenizer_registry::pipeline::{BaseTokenizer, TextAnalyzer, TokenFilter};
use tokenizer_registry::registry::RegistryMap;

fn words(analyzer: &TextAnalyzer, input: &str) -> Vec<String> {
    analyzer
        .token_stream(input)
        .into_iter()
        .map(|t| t.text)
        .collect()
}

#[test]
fn bare_simple_tokenizer_keeps_case() {
    let analyzer = TextAnalyzer::new(BaseTokenizer::Simple);
    assert_eq!(words(&analyzer, "Hello World"), vec!["Hello", "World"]);
}

#[test]
fn filters_apply_in_attachment_order() {
    // Lowercasing before stemming stems the lowercased word; the stemmer
    // expects lowercase input, so "Running" stems only in this order.
    let analyzer = TextAnalyzer::new(BaseTokenizer::Simple)
        .filter(TokenFilter::LowerCaser)
        .filter(TokenFilter::Stemmer);
    assert_eq!(words(&analyzer, "Running"), vec!["run"]);
}

#[test]
fn lowercase_filter_rewrites_token_text_only() {
    let analyzer = TextAnalyzer::new(BaseTokenizer::Simple).filter(TokenFilter::LowerCaser);
    let tokens = analyzer.token_stream("MiXeD CaSe");
    assert_eq!(tokens[0].text, "mixed");
    assert_eq!(tokens[1].text, "case");
    assert_eq!((tokens[0].offset_from, tokens[0].offset_to), (0, 5));
    assert_eq!((tokens[1].offset_from, tokens[1].offset_to), (6, 10));
}

#[test]
fn remove_long_keeps_short_tokens_unchanged() {
    let analyzer =
        TextAnalyzer::new(BaseTokenizer::Simple).filter(TokenFilter::RemoveLong { limit: 3 });
    assert_eq!(words(&analyzer, "a bb ccc dddd"), vec!["a", "bb", "ccc"]);
}

#[test]
fn duplicate_has_equal_behavior() {
    let analyzer = TextAnalyzer::new(BaseTokenizer::Simple)
        .filter(TokenFilter::RemoveLong { limit: 40 })
        .filter(TokenFilter::LowerCaser);
    let copy = analyzer.duplicate();
    assert_eq!(
        analyzer.token_stream("Independent COPIES"),
        copy.token_stream("Independent COPIES")
    );
}

#[test]
fn registry_lookup_absent_then_present() {
    let mut registry = RegistryMap::new();
    assert!(registry.lookup("upper").is_none());
    registry.insert("upper", TextAnalyzer::new(BaseTokenizer::Simple));
    let found = registry.lookup("upper");
    assert!(found.is_some());
    assert_eq!(words(&found.unwrap(), "x y"), vec!["x", "y"]);
}

#[test]
fn registry_insert_is_last_write_wins() {
    let mut registry = RegistryMap::new();
    registry.insert("n", TextAnalyzer::new(BaseTokenizer::Raw));
    registry.insert(
        "n",
        TextAnalyzer::new(BaseTokenizer::Simple).filter(TokenFilter::LowerCaser),
    );
    let instance = registry.lookup("n").unwrap();
    assert_eq!(words(&instance, "A B"), vec!["a", "b"]);
}

#[test]
fn raw_pipeline_ignores_filters_ordering_of_whole_token() {
    let analyzer =
        TextAnalyzer::new(BaseTokenizer::Raw).filter(TokenFilter::RemoveLong { limit: 5 });
    // The single raw token is subject to the length filter like any other.
    assert!(words(&analyzer, "longer than five").is_empty());
    assert_eq!(words(&analyzer, "tiny"), vec!["tiny"]);
}
