use cloneem::{clone, emit, item_shape, parse_item, parse_items, split_items, CloneError, CloneItem, Delimiter, Token};

/// Reads whitespace-separated words as tokens: a word that starts with a
/// letter or `_` is an identifier, one that starts with a digit a literal,
/// `()` an empty parenthesised group, and any other word a run of
/// punctuation characters joined to one another.
fn toks(text: &str) -> Vec<Token> {
    let mut out = Vec::new();
    for word in text.split_whitespace() {
        let first = word.chars().next().unwrap();
        if word == "()" {
            out.push(Token::Group(Delimiter::Parenthesis, String::new()));
        } else if first.is_alphabetic() || first == '_' {
            out.push(Token::Ident(word.to_string()));
        } else if first.is_ascii_digit() {
            out.push(Token::Literal(word.to_string()));
        } else {
            let chars: Vec<char> = word.chars().collect();
            for (i, c) in chars.iter().enumerate() {
                out.push(Token::Punct(*c, i + 1 < chars.len()));
            }
        }
    }
    out
}

fn expand(text: &str) -> Result<Vec<Token>, CloneError> {
    clone(&toks(text))
}

#[test]
fn mixed_items_expand() {
    let r = expand("self . field , stuff . b . a . x , something = local , elem = pair . 1");
    let expected = toks(
        "let field = self . field . clone () ; \
         let x = stuff . b . a . x . clone () ; \
         let something = local . clone () ; \
         let elem = pair . 1 . clone () ;",
    );
    assert_eq!(r, Ok(expected));
}

#[test]
fn mixed_item_names() {
    let items = parse_items(&toks("self . field , stuff . b . a . x , something = local , elem = pair . 1")).unwrap();
    let names: Vec<&str> = items.iter().map(|i| i.name.as_str()).collect();
    assert_eq!(names, vec!["field", "x", "something", "elem"]);
    assert_eq!(items[3].expr, toks("pair . 1"));
    assert_eq!(items[2].expr, toks("local"));
}

#[test]
fn empty_input_expands_to_nothing() {
    assert_eq!(expand(""), Ok(Vec::new()));
    assert_eq!(parse_items(&Vec::new()), Ok(Vec::new()));
}

#[test]
fn trailing_comma_adds_no_binding() {
    assert_eq!(expand("x ,"), Ok(toks("let x = x . clone () ;")));
    assert_eq!(expand("a . b ,"), expand("a . b"));
}

#[test]
fn tuple_field_without_name_is_refused() {
    assert_eq!(expand("tuple . 1"), Err(CloneError::TupleFieldWithoutName { position: 1 }));
}

#[test]
fn tuple_field_with_name_is_accepted() {
    assert_eq!(expand("named = tuple . 1"), Ok(toks("let named = tuple . 1 . clone () ;")));
}

#[test]
fn nested_tuple_index_literal() {
    assert_eq!(expand("pair . 0.1"), Err(CloneError::TupleFieldWithoutName { position: 1 }));
    assert_eq!(expand("e = pair . 0.1"), Ok(toks("let e = pair . 0.1 . clone () ;")));
    assert_eq!(expand("pair . 0 . x"), Ok(toks("let x = pair . 0 . x . clone () ;")));
}

#[test]
fn arithmetic_rhs_is_refused() {
    assert_eq!(expand("name = 1 + 2"), Err(CloneError::UnsupportedRhs { position: 1 }));
}

#[test]
fn call_rhs_is_refused_at_its_position() {
    assert_eq!(expand("a , b = f ()"), Err(CloneError::UnsupportedRhs { position: 2 }));
}

#[test]
fn field_and_named_items_in_order() {
    assert_eq!(
        expand("a . b . c , other = d . e"),
        Ok(toks("let c = a . b . c . clone () ; let other = d . e . clone () ;"))
    );
}

#[test]
fn duplicate_names_are_accepted() {
    assert_eq!(
        expand("x , y = a . x , x"),
        Ok(toks("let x = x . clone () ; let y = a . x . clone () ; let x = x . clone () ;"))
    );
}

#[test]
fn deep_field_access_takes_last_name() {
    assert_eq!(
        expand("a . b . c . d . e"),
        Ok(toks("let e = a . b . c . d . e . clone () ;"))
    );
}

#[test]
fn unsupported_items_name_their_position() {
    assert_eq!(expand("a , 1"), Err(CloneError::UnsupportedItem { position: 2 }));
    assert_eq!(expand("f ()"), Err(CloneError::UnsupportedItem { position: 1 }));
    assert_eq!(expand("a == b"), Err(CloneError::UnsupportedItem { position: 1 }));
    assert_eq!(expand("a + b"), Err(CloneError::UnsupportedItem { position: 1 }));
    assert_eq!(expand("a . b = c"), Err(CloneError::UnsupportedItem { position: 1 }));
}

#[test]
fn multi_segment_path_needs_a_name() {
    assert_eq!(expand("a :: b"), Err(CloneError::UnsupportedItem { position: 1 }));
    assert_eq!(expand("n = a :: b"), Ok(toks("let n = a :: b . clone () ;")));
    assert_eq!(expand("m :: C . f"), Ok(toks("let f = m :: C . f . clone () ;")));
}

#[test]
fn malformed_lists_are_refused() {
    assert_eq!(expand("a , , b"), Err(CloneError::MalformedItemList { position: 2 }));
    assert_eq!(expand(", a"), Err(CloneError::MalformedItemList { position: 1 }));
    assert_eq!(expand(","), Err(CloneError::MalformedItemList { position: 1 }));
    assert_eq!(expand("a ="), Err(CloneError::MalformedItemList { position: 1 }));
}

#[test]
fn first_failing_item_aborts_expansion() {
    assert_eq!(
        expand("a , tuple . 0 , 1 + 2"),
        Err(CloneError::TupleFieldWithoutName { position: 2 })
    );
}

#[test]
fn equal_inputs_expand_alike() {
    let text = "self . broker , local , local . indirection . nested , named = tuple . 1";
    assert_eq!(expand(text), expand(text));
    assert_eq!(
        expand(text),
        Ok(toks(
            "let broker = self . broker . clone () ; \
             let local = local . clone () ; \
             let nested = local . indirection . nested . clone () ; \
             let named = tuple . 1 . clone () ;"
        ))
    );
}

#[test]
fn split_items_drops_trailing_comma() {
    assert_eq!(split_items(&toks("a , b . c ,")), vec![toks("a"), toks("b . c")]);
    assert_eq!(split_items(&toks("")), Vec::<Vec<Token>>::new());
    assert_eq!(split_items(&toks("a , , b")), vec![toks("a"), Vec::new(), toks("b")]);
}

#[test]
fn parse_item_forms() {
    assert_eq!(
        parse_item(&toks("x"), 1),
        Ok(CloneItem { name: "x".to_string(), expr: toks("x") })
    );
    assert_eq!(
        parse_item(&toks("s . f"), 4),
        Ok(CloneItem { name: "f".to_string(), expr: toks("s . f") })
    );
    assert_eq!(
        parse_item(&toks("n = s . 0"), 1),
        Ok(CloneItem { name: "n".to_string(), expr: toks("s . 0") })
    );
    assert_eq!(parse_item(&toks("s . 0"), 3), Err(CloneError::TupleFieldWithoutName { position: 3 }));
}

#[test]
fn emit_one_statement_per_item() {
    let items = vec![
        CloneItem { name: "p".to_string(), expr: toks("q . r") },
        CloneItem { name: "p".to_string(), expr: toks("s") },
    ];
    assert_eq!(emit(&items), toks("let p = q . r . clone () ; let p = s . clone () ;"));
    assert_eq!(emit(&Vec::new()), Vec::new());
}

#[test]
fn keyword_names_are_refused() {
    assert_eq!(expand("self"), Err(CloneError::UnsupportedItem { position: 1 }));
    assert_eq!(expand("a , fut . await"), Err(CloneError::UnsupportedItem { position: 2 }));
    assert_eq!(expand("self = a . b"), Err(CloneError::UnsupportedItem { position: 1 }));
    assert_eq!(expand("true"), Err(CloneError::UnsupportedItem { position: 1 }));
    assert_eq!(expand("_"), Err(CloneError::UnsupportedItem { position: 1 }));
}

#[test]
fn keyword_sources_keep_their_place() {
    assert_eq!(expand("me = self"), Ok(toks("let me = self . clone () ;")));
    assert_eq!(expand("self . await_count"), Ok(toks("let await_count = self . await_count . clone () ;")));
    assert_eq!(expand("r#type = a . b"), Ok(toks("let r#type = a . b . clone () ;")));
}

#[test]
fn item_shape_ignores_keywords() {
    assert_eq!(
        item_shape(&toks("self"), 1),
        Ok(CloneItem { name: "self".to_string(), expr: toks("self") })
    );
    assert_eq!(parse_item(&toks("self"), 1), Err(CloneError::UnsupportedItem { position: 1 }));
    assert_eq!(item_shape(&toks("1"), 2), Err(CloneError::UnsupportedItem { position: 2 }));
}

fn with_group(text: &str, body: &str) -> Vec<Token> {
    let mut v = toks(text);
    v.push(Token::Group(Delimiter::Parenthesis, body.to_string()));
    v
}

#[test]
fn non_expressions_make_the_list_malformed() {
    assert_eq!(expand("a b"), Err(CloneError::MalformedItemList { position: 1 }));
    assert_eq!(expand("x , n = a b"), Err(CloneError::MalformedItemList { position: 2 }));
    assert_eq!(expand("let . x"), Err(CloneError::MalformedItemList { position: 1 }));
    assert_eq!(expand("n = mut"), Err(CloneError::MalformedItemList { position: 1 }));
    assert_eq!(clone(&with_group("f", "a b")), Err(CloneError::MalformedItemList { position: 1 }));
    assert_eq!(clone(&with_group("f", "x")), Err(CloneError::UnsupportedItem { position: 1 }));
}

#[test]
fn joined_assignment_sign() {
    assert_eq!(expand("n =- 1"), Err(CloneError::UnsupportedRhs { position: 1 }));
    assert_eq!(expand("n =& x"), Err(CloneError::UnsupportedRhs { position: 1 }));
    assert_eq!(expand("n = true"), Err(CloneError::UnsupportedRhs { position: 1 }));
}

#[test]
fn render_reads_back() {
    assert_eq!(
        cloneem::token::render_tokens(&with_group("f", "a , b")).into_iter().collect::<String>(),
        "f (a , b) "
    );
    assert_eq!(
        cloneem::token::render_tokens(&toks("a :: b =- 1")).into_iter().collect::<String>(),
        "a :: b =- 1 "
    );
}

fn grp(d: Delimiter, body: &str) -> Vec<Token> {
    vec![Token::Group(d, body.to_string())]
}

fn join(parts: Vec<Vec<Token>>) -> Vec<Token> {
    parts.into_iter().flatten().collect()
}

#[test]
fn field_access_after_index_and_call() {
    let item = join(vec![toks("a"), grp(Delimiter::Bracket, "0"), toks(". b")]);
    let expected = join(vec![toks("let b = a"), grp(Delimiter::Bracket, "0"), toks(". b . clone () ;")]);
    assert_eq!(clone(&item), Ok(expected));
    let item = join(vec![toks("self . get"), grp(Delimiter::Parenthesis, ""), toks(". x")]);
    let expected = join(vec![toks("let x = self . get () . x . clone () ;")]);
    assert_eq!(clone(&item), Ok(expected));
}

#[test]
fn assignment_from_postfix_chains() {
    let item = join(vec![toks("n ="), grp(Delimiter::Parenthesis, "a"), toks(". b")]);
    let expected = join(vec![toks("let n ="), grp(Delimiter::Parenthesis, "a"), toks(". b . clone () ;")]);
    assert_eq!(clone(&item), Ok(expected));
    let item = join(vec![toks("n = v"), grp(Delimiter::Bracket, "0"), toks(". x")]);
    let expected = join(vec![toks("let n = v"), grp(Delimiter::Bracket, "0"), toks(". x . clone () ;")]);
    assert_eq!(clone(&item), Ok(expected));
}

#[test]
fn turbofish_paths() {
    assert_eq!(expand("n = a :: < T > :: B"), Ok(toks("let n = a :: < T > :: B . clone () ;")));
    assert_eq!(expand("n = f :: < A , B >"), Ok(toks("let n = f :: < A , B > . clone () ;")));
    assert_eq!(expand("n = :: m :: C"), Ok(toks("let n = :: m :: C . clone () ;")));
    assert_eq!(expand("n = x . f :: < T > ()"), Err(CloneError::UnsupportedRhs { position: 1 }));
}

#[test]
fn split_keeps_turbofish_commas() {
    assert_eq!(split_items(&toks("n = f :: < A , B > , x")), vec![toks("n = f :: < A , B >"), toks("x")]);
    assert_eq!(split_items(&toks("a < b , c > d")), vec![toks("a < b"), toks("c > d")]);
    assert_eq!(expand("a < b , c > d"), Err(CloneError::UnsupportedItem { position: 1 }));
}

#[test]
fn decide_item_follows_the_answers() {
    let item = toks("s . f");
    assert_eq!(
        cloneem::items::decide_item(&item, 2, true, true),
        Ok(CloneItem { name: "f".to_string(), expr: toks("s . f") })
    );
    assert_eq!(cloneem::items::decide_item(&item, 2, false, true), Err(CloneError::MalformedItemList { position: 2 }));
    assert_eq!(cloneem::items::decide_item(&item, 2, true, false), Err(CloneError::UnsupportedItem { position: 2 }));
    assert_eq!(cloneem::items::decide_item(&toks("t . 0"), 1, true, true), Err(CloneError::TupleFieldWithoutName { position: 1 }));
}

#[test]
fn plain_ident_answers() {
    assert!(cloneem::token::is_plain_ident("field"));
    assert!(!cloneem::token::is_plain_ident("self"));
    assert!(!cloneem::token::is_plain_ident("_"));
    assert!(cloneem::token::is_expr_text(&"a . b".chars().collect()));
    assert!(!cloneem::token::is_expr_text(&Vec::new()));
}
