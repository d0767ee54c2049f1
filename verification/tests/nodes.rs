use metal_ast::{enclosing_span, Block, Ident, Item, MaybeSpanned, Mutability, Span, Spanned, Visibility};

fn three_items<'a>() -> Vec<Item<'a>> {
    vec![
        Item::new("fn a", Span::new(0, 5)),
        Item::new("b()", Span::new(6, 9)),
        Item::new("let c", Span::new(10, 15)),
    ]
}

#[test]
fn ident_span_is_as_long_as_its_slice() {
    let source = "let total = 1;";
    let inner = &source[4..9];
    let span = Span::new(4, 9);
    assert!(Ident::accepts(inner, &span));
    let ident = Ident::new(inner, span);
    assert_eq!(ident.inner(), "total");
    assert_eq!(ident.span(), Span::new(4, 9));
    assert_eq!(ident.span().len(), ident.inner().len());
}

#[test]
fn ident_length_is_counted_in_bytes() {
    let inner = "caf\u{e9}";
    assert_eq!(inner.len(), 5);
    assert!(Ident::accepts(inner, &Span::new(10, 15)));
    assert!(!Ident::accepts(inner, &Span::new(10, 14)));
    let ident = Ident::new(inner, Span::new(10, 15));
    assert_eq!(ident.span().len(), 5);
}

#[test]
fn ident_accepts_only_a_span_of_the_slice_length() {
    assert!(Ident::accepts("abc", &Span::new(0, 3)));
    assert!(Ident::accepts("", &Span::new(7, 7)));
    assert!(!Ident::accepts("abc", &Span::new(0, 2)));
    assert!(!Ident::accepts("abc", &Span::new(0, 4)));
    assert!(!Ident::accepts("abc", &Span { start: 5, end: 2 }));
    assert!(!Ident::accepts("", &Span { start: 1, end: 0 }));
}

#[test]
fn ident_borrows_from_the_source() {
    let source = String::from("x1 y2");
    let ident = Ident::new(&source[3..5], Span::new(3, 5));
    assert_eq!(ident.inner().as_ptr(), source[3..].as_ptr());
}

#[test]
fn item_keeps_text_and_span() {
    let item = Item::new("fn a", Span::new(0, 5));
    assert_eq!(item.text, "fn a");
    assert_eq!(item.span, Span::new(0, 5));
    assert_eq!(item.span(), Span::new(0, 5));
}

#[test]
fn block_preserves_item_order() {
    let items = three_items();
    assert!(Block::accepts(&items, &Span::new(0, 0)));
    let block = Block::new(items, Span::new(0, 0));
    let spans: Vec<Span> = block.items().iter().map(|item| item.span).collect();
    assert_eq!(spans, vec![Span::new(0, 5), Span::new(6, 9), Span::new(10, 15)]);
    let texts: Vec<&str> = block.items().iter().map(|item| item.text).collect();
    assert_eq!(texts, vec!["fn a", "b()", "let c"]);
    assert_eq!(block.span(), Span::new(0, 15));
}

#[test]
fn block_span_runs_from_first_start_to_last_end() {
    let block = Block::new(three_items(), Span::new(100, 102));
    let s = block.span();
    assert_eq!(s.start, block.items()[0].span.start);
    assert_eq!(s.end, block.items()[2].span.end);
}

#[test]
fn block_span_of_one_item_is_that_item_span() {
    let block = Block::new(vec![Item::new("x", Span::new(4, 5))], Span::new(0, 9));
    assert_eq!(block.span(), Span::new(4, 5));
}

#[test]
fn block_span_contains_every_item() {
    let block = Block::new(three_items(), Span::new(0, 0));
    let s = block.span();
    for item in block.items() {
        assert!(s.start <= item.span.start);
        assert!(item.span.end <= s.end);
        assert!(s.encloses(&item.span));
    }
}

#[test]
fn block_span_agrees_with_a_scan_of_all_items() {
    let block = Block::new(three_items(), Span::new(0, 0));
    let fields: Vec<Option<Span>> = block.items().iter().map(|item| Some(item.span)).collect();
    assert_eq!(enclosing_span(&fields), Some(block.span()));
}

#[test]
fn block_keeps_equal_items_apart() {
    let items = vec![Item::new("a", Span::new(3, 4)), Item::new("a", Span::new(3, 4))];
    assert!(Block::accepts(&items, &Span::new(0, 0)));
    let block = Block::new(items, Span::new(0, 0));
    assert_eq!(block.items().len(), 2);
    assert_eq!(block.span(), Span::new(3, 4));
}

#[test]
fn empty_block_reports_the_span_given_for_it() {
    let items: Vec<Item> = Vec::new();
    assert!(Block::accepts(&items, &Span::new(20, 22)));
    let block = Block::new(items, Span::new(20, 22));
    assert!(block.items().is_empty());
    assert_eq!(block.span(), Span::new(20, 22));
}

#[test]
fn block_with_items_ignores_the_span_for_the_empty_case() {
    let a = Block::new(three_items(), Span::new(0, 0));
    let b = Block::new(three_items(), Span::new(40, 80));
    assert_eq!(a.span(), b.span());
}

#[test]
fn block_accepts_rejects_decreasing_starts() {
    let items = vec![
        Item::new("a", Span::new(0, 5)),
        Item::new("c", Span::new(10, 15)),
        Item::new("b", Span::new(6, 9)),
    ];
    assert!(!Block::accepts(&items, &Span::new(0, 0)));
}

#[test]
fn block_accepts_rejects_an_item_that_ends_before_it_starts() {
    let items = vec![Item::new("a", Span::new(0, 5)), Item::new("b", Span { start: 9, end: 6 })];
    assert!(!Block::accepts(&items, &Span::new(0, 0)));
}

#[test]
fn block_accepts_rejects_an_empty_span_that_ends_before_it_starts() {
    assert!(!Block::accepts(&three_items(), &Span { start: 3, end: 1 }));
    assert!(!Block::accepts(&Vec::new(), &Span { start: 3, end: 1 }));
}

#[test]
fn block_of_nested_items_ends_with_its_last_item() {
    let items = vec![Item::new("outer", Span::new(0, 100)), Item::new("inner", Span::new(5, 10))];
    assert!(Block::accepts(&items, &Span::new(0, 0)));
    let block = Block::new(items, Span::new(0, 0));
    assert_eq!(block.span(), Span::new(0, 10));
    assert!(!block.span().encloses(&block.items()[0].span));
    assert!(block.span().start <= block.items()[0].span.start);
}

#[test]
fn visibility_local_has_no_span() {
    assert_eq!(Visibility::Local.maybe_span(), None);
}

#[test]
fn visibility_pub_has_its_keyword_span() {
    let span = Span::new(2, 5);
    assert_eq!(Visibility::Pub(span).maybe_span(), Some(Span::new(2, 5)));
}

#[test]
fn mutability_immut_has_no_span() {
    assert_eq!(Mutability::Immut.maybe_span(), None);
}

#[test]
fn mutability_mut_has_its_keyword_span() {
    let span = Span::new(2, 5);
    assert_eq!(Mutability::Mut(span).maybe_span(), Some(Span::new(2, 5)));
}

#[test]
fn modifiers_default_to_the_implicit_variant() {
    assert_eq!(Visibility::default(), Visibility::Local);
    assert_eq!(Mutability::default(), Mutability::Immut);
    assert_eq!(Visibility::default().maybe_span(), None);
    assert_eq!(Mutability::default().maybe_span(), None);
}

#[test]
fn span_queries_repeat_the_same_answer() {
    let ident = Ident::new("abc", Span::new(1, 4));
    assert_eq!(ident.span(), ident.span());
    let block = Block::new(three_items(), Span::new(0, 0));
    let first = block.span();
    let second = block.span();
    let third = block.span();
    assert_eq!(first, second);
    assert_eq!(second, third);
    let empty = Block::new(Vec::new(), Span::new(8, 9));
    assert_eq!(empty.span(), empty.span());
    let vis = Visibility::Pub(Span::new(2, 5));
    assert_eq!(vis.maybe_span(), vis.maybe_span());
    let mutability = Mutability::Immut;
    assert_eq!(mutability.maybe_span(), mutability.maybe_span());
}

#[test]
fn modifier_spans_feed_the_derivation_rule() {
    let vis = Visibility::Pub(Span::new(0, 3));
    let mutability = Mutability::Immut;
    let name = Ident::new("x", Span::new(8, 9));
    let fields = [vis.maybe_span(), mutability.maybe_span(), Some(name.span())];
    assert_eq!(enclosing_span(&fields), Some(Span::new(0, 9)));
    let implicit = [Visibility::Local.maybe_span(), Mutability::Immut.maybe_span()];
    assert_eq!(enclosing_span(&implicit), None);
}
