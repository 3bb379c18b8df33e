use fjord::command_line::{LexItem, LexItemParseError, LexItemsIter};

fn all_items(s: &str) -> Vec<Result<LexItem, LexItemParseError>> {
    let mut it = LexItemsIter::new(s);
    let mut out = Vec::new();
    while let Some(item) = it.next() {
        let failed = item.is_err();
        out.push(item);
        if failed {
            break;
        }
    }
    out
}

#[test]
fn lexer_basic() {
    assert_eq!(
        vec![
            Ok(LexItem::CommandName("echo".to_string())),
            Ok(LexItem::CommandArg("Quoted together".to_string())),
            Ok(LexItem::CommandArg("or".to_string())),
            Ok(LexItem::CommandArg("separate".to_string()))
        ],
        all_items("echo \"Quoted together\" or separate ")
    );
}

#[test]
fn unmatched_quote_is_an_error_and_keeps_position() {
    let mut it = LexItemsIter::new("cat \"unclosed");
    assert_eq!(it.next(), Some(Ok(LexItem::CommandName("cat".to_string()))));
    assert_eq!(it.next(), Some(Err(LexItemParseError::UnmatchedQuote)));
    assert_eq!(it.next(), Some(Err(LexItemParseError::UnmatchedQuote)));
}

#[test]
fn only_whitespace_gives_no_items() {
    let mut it = LexItemsIter::new(" \t\u{3000} ");
    assert_eq!(it.next(), None);
    assert_eq!(LexItemsIter::new("").collect_items(), Ok(vec![]));
}

#[test]
fn collect_items_stops_at_unmatched_quote() {
    assert_eq!(
        LexItemsIter::new("ls \"a b\" \"c").collect_items(),
        Err(LexItemParseError::UnmatchedQuote)
    );
    assert_eq!(
        LexItemsIter::new("  ls   -la\t/tmp ").collect_items(),
        Ok(vec![
            LexItem::CommandName("ls".to_string()),
            LexItem::CommandArg("-la".to_string()),
            LexItem::CommandArg("/tmp".to_string())
        ])
    );
}

#[test]
fn quoted_item_may_be_empty_and_join_nothing() {
    assert_eq!(
        all_items("\"\"x y"),
        vec![
            Ok(LexItem::CommandName("".to_string())),
            Ok(LexItem::CommandArg("x".to_string())),
            Ok(LexItem::CommandArg("y".to_string()))
        ]
    );
}

#[test]
fn unquoted_line_gives_its_words() {
    let items = LexItemsIter::new("  ls \t -a   foo  ").collect_items().unwrap();
    assert_eq!(items.iter().map(|i| i.as_str().to_string()).collect::<Vec<_>>(), vec!["ls", "-a", "foo"]);
    assert!(matches!(items[0], LexItem::CommandName(_)));
    assert!(matches!(items[1], LexItem::CommandArg(_)));
}

#[test]
fn blank_line_gives_no_items() {
    assert!(LexItemsIter::new(" \t  ").next().is_none());
    assert!(LexItemsIter::new("").collect_items().unwrap().is_empty());
}
