//! The emitter: one `let name = expr.clone();` statement per item, in order.

use vstd::prelude::*;

use crate::items::{item_list, item_views, items_result, parse_items, parse_spec, CloneError, CloneItem, CloneItemView};
use crate::token::{copy_token, views, Delimiter, Token, TokenView};

verus! {

/// The tokens of `let name = expr.clone();` for one item.
pub open spec fn binding_view(it: CloneItemView) -> Seq<TokenView> {
    seq![TokenView::Ident("let"@), TokenView::Ident(it.name), TokenView::Punct('=', false)]
        + it.expr + seq![
        TokenView::Punct('.', false),
        TokenView::Ident("clone"@),
        TokenView::Group(Delimiter::Parenthesis, Seq::empty()),
        TokenView::Punct(';', false),
    ]
}

/// The statements of all items, concatenated in their order.
pub open spec fn emit_spec(items: Seq<CloneItemView>) -> Seq<TokenView>
    decreases items.len(),
{
    if items.len() == 0 {
        Seq::empty()
    } else {
        emit_spec(items.drop_last()) + binding_view(items.last())
    }
}

/// The expansion of a whole invocation, given the parser's answers on each
/// item, or why it has none.
pub open spec fn clone_spec(s: Seq<TokenView>, answers: Seq<(bool, bool)>) -> Result<
    Seq<TokenView>,
    CloneError,
> {
    match parse_spec(s, answers) {
        Ok(items) => Ok(emit_spec(items)),
        Err(e) => Err(e),
    }
}

/// The view of an expansion result.
pub open spec fn expansion_result(r: Result<Vec<Token>, CloneError>) -> Result<
    Seq<TokenView>,
    CloneError,
> {
    match r {
        Ok(v) => Ok(views(v@)),
        Err(e) => Err(e),
    }
}

/// Appends `t` to `out`.
fn push_token(out: &mut Vec<Token>, t: Token)
    ensures
        views(final(out)@) == views(old(out)@).push(t@),
{
    out.push(t);
    assert(views(final(out)@) =~= views(old(out)@).push(t@));
}

/// Appends the statement `let name = expr.clone();` of `item` to `out`.
pub fn emit_binding(item: &CloneItem, out: &mut Vec<Token>)
    ensures
        views(final(out)@) == views(old(out)@) + binding_view(item@),
{
    let ghost start = views(out@);
    push_token(out, Token::Ident("let".to_owned()));
    push_token(out, Token::Ident(item.name.clone()));
    push_token(out, Token::Punct('=', false));
    let ghost mid = views(out@);
    let mut i: usize = 0;
    while i < item.expr.len()
        invariant
            i <= item.expr.len(),
            views(out@) =~= mid + views(item.expr@).take(i as int),
        decreases item.expr.len() - i,
    {
        push_token(out, copy_token(&item.expr[i]));
        assert(views(item.expr@).take(i + 1) =~= views(item.expr@).take(i as int).push(
            item.expr@[i as int]@,
        ));
        i = i + 1;
    }
    assert(views(item.expr@).take(item.expr.len() as int) =~= views(item.expr@));
    push_token(out, Token::Punct('.', false));
    push_token(out, Token::Ident("clone".to_owned()));
    push_token(out, Token::Group(Delimiter::Parenthesis, String::new()));
    push_token(out, Token::Punct(';', false));
    assert(views(out@) =~= start + binding_view(item@));
}

/// The statements of `items`, one per item, in their order.
pub fn emit(items: &Vec<CloneItem>) -> (r: Vec<Token>)
    ensures
        views(r@) == emit_spec(item_views(items@)),
{
    let mut out: Vec<Token> = Vec::new();
    let mut i: usize = 0;
    assert(views(out@) =~= Seq::<TokenView>::empty());
    while i < items.len()
        invariant
            i <= items.len(),
            views(out@) == emit_spec(item_views(items@).take(i as int)),
        decreases items.len() - i,
    {
        emit_binding(&items[i], &mut out);
        assert(item_views(items@).take(i + 1).drop_last() =~= item_views(items@).take(i as int));
        i = i + 1;
    }
    assert(item_views(items@).take(items.len() as int) =~= item_views(items@));
    out
}

/// Expands an invocation: its statements when every item is well formed,
/// otherwise the error of the first item that is not, as syn's answers on
/// the items decide.
pub fn clone(tokens: &Vec<Token>) -> (r: Result<Vec<Token>, CloneError>)
    ensures
        exists|answers: Seq<(bool, bool)>|
            answers.len() == item_list(views(tokens@)).len() && expansion_result(r) == #[trigger] clone_spec(
                views(tokens@),
                answers,
            ),
{
    let parsed = parse_items(tokens);
    let ghost answers = choose|answers: Seq<(bool, bool)>|
        answers.len() == item_list(views(tokens@)).len() && items_result(parsed) == #[trigger] parse_spec(
            views(tokens@),
            answers,
        );
    match parsed {
        Ok(items) => {
            let out = emit(&items);
            assert(expansion_result(Ok(out)) == clone_spec(views(tokens@), answers));
            Ok(out)
        },
        Err(e) => {
            assert(expansion_result(Err(e)) == clone_spec(views(tokens@), answers));
            Err(e)
        },
    }
}

} // verus!
