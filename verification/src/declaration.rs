//! The declaration of a service, read from its tokens:
//!
//! ```text
//! service    = [ visibility ] `trait` NAME `{` { method } `}`
//! visibility = `pub` [ `(` ( `crate` | `self` | `super` | `in` path ) `)` ]
//!            | `crate`
//! path       = [ `::` ] segment { `::` segment }
//! segment    = NAME | `super` | `self` | `Self` | `crate`
//! method     = `async` `fn` NAME `(` [ arg { `,` arg } [ `,` ] ] `)` `;`
//! arg        = NAME `:` TYPE | receiver
//! receiver   = [ `&` [ `'` NAME ] ] [ `mut` ] `self`
//! ```
//!
//! A `(` behind `pub` that opens none of these restrictions is not part of
//! the visibility, and a `crate` before `::` is none. Two `:` in a row are
//! read as `::`.
//!
//! A TYPE is every token up to the next `,`, `;` or closing bracket that is
//! not inside brackets of the type itself, and at least one. A receiver is
//! read and left out: a method's parameters are those that have a name.
//! Methods return nothing, so the grammar has no place for a return type.

use vstd::prelude::*;
use vstd::string::*;

use crate::schema::{MethodSpec, MethodSpecView, Param, ParamView, ServiceSpec, ServiceSpecView};
use crate::token::{copy_tokens, token_views, Token, TokenView};

verus! {

/// What the grammar expects at some place.
#[derive(Clone, Copy, Debug, PartialEq, Eq, Structural)]
pub enum Expected {
    /// The keyword `trait`.
    Trait,
    /// A name.
    Name,
    /// `{`.
    OpenBrace,
    /// The `async` of another method, or the `}` of the service.
    Method,
    /// The keyword `fn`.
    Fn,
    /// `(`.
    OpenParen,
    /// `:`.
    Colon,
    /// A type.
    Type,
    /// The `self` of a receiver.
    Receiver,
    /// `,` or `)`.
    CommaOrCloseParen,
    /// `;`.
    Semicolon,
    /// The end of the tokens.
    End,
    /// A path.
    Path,
    /// Another segment of a path.
    PathSegment,
    /// `)`.
    CloseParen,
}

/// Why tokens are no declaration: what was expected at token `at`, and is
/// not there. With `at` the number of tokens, the tokens end too early.
#[derive(Clone, Copy, Debug, PartialEq, Eq, Structural)]
pub struct ParseError {
    pub at: usize,
    pub expected: Expected,
}

/// The refusal of whatever stands at `pos`.
pub open spec fn fail<T>(pos: int, expected: Expected) -> Result<T, ParseError> {
    Err(ParseError { at: pos as usize, expected })
}

/// `t` stands at `pos`.
pub open spec fn stands(tokens: Seq<TokenView>, pos: int, t: TokenView) -> bool {
    0 <= pos < tokens.len() && tokens[pos] == t
}

/// A name stands at `pos`.
pub open spec fn names_at(tokens: Seq<TokenView>, pos: int) -> bool {
    0 <= pos < tokens.len() && tokens[pos] is Ident
}

/// The name that stands at `pos`.
pub open spec fn name_at(tokens: Seq<TokenView>, pos: int) -> Seq<char> {
    tokens[pos]->Ident_0
}

/// The keyword `word` as a token.
pub open spec fn keyword(word: Seq<char>) -> TokenView {
    TokenView::Keyword(word)
}

/// The punctuation `c` as a token.
pub open spec fn punct(c: char) -> TokenView {
    TokenView::Punct(c)
}

/// `::` stands at `pos`.
pub open spec fn colons_at(tokens: Seq<TokenView>, pos: int) -> bool {
    stands(tokens, pos, punct(':')) && stands(tokens, pos + 1, punct(':'))
}

/// A segment of a path stands at `pos`.
pub open spec fn segment_at(tokens: Seq<TokenView>, pos: int) -> bool {
    ||| names_at(tokens, pos)
    ||| stands(tokens, pos, keyword("super"@))
    ||| stands(tokens, pos, keyword("self"@))
    ||| stands(tokens, pos, keyword("Self"@))
    ||| stands(tokens, pos, keyword("crate"@))
}

/// Where the segments that start at `pos` end.
pub open spec fn segments_end(tokens: Seq<TokenView>, pos: int) -> Result<int, ParseError>
    decreases tokens.len() - pos,
{
    if !segment_at(tokens, pos) {
        fail(pos, Expected::PathSegment)
    } else if colons_at(tokens, pos + 1) {
        segments_end(tokens, pos + 3)
    } else {
        Ok(pos + 1)
    }
}

/// Where the path that starts at `pos` ends.
pub open spec fn path_end(tokens: Seq<TokenView>, pos: int) -> Result<int, ParseError> {
    let first = if colons_at(tokens, pos) {
        pos + 2
    } else {
        pos
    };
    if !segment_at(tokens, first) {
        fail(first, Expected::Path)
    } else {
        segments_end(tokens, first)
    }
}

/// Where the declaration proper starts: behind the visibility, if there is
/// one.
pub open spec fn after_visibility(tokens: Seq<TokenView>) -> Result<int, ParseError> {
    if stands(tokens, 0, keyword("pub"@)) {
        if !stands(tokens, 1, punct('(')) {
            Ok(1)
        } else if stands(tokens, 2, keyword("crate"@)) || stands(tokens, 2, keyword("self"@))
            || stands(tokens, 2, keyword("super"@)) {
            if stands(tokens, 3, punct(')')) {
                Ok(4)
            } else {
                Ok(1)
            }
        } else if stands(tokens, 2, keyword("in"@)) {
            match path_end(tokens, 3) {
                Err(e) => Err(e),
                Ok(end) => if stands(tokens, end, punct(')')) {
                    Ok(end + 1)
                } else {
                    fail(end, Expected::CloseParen)
                },
            }
        } else {
            Ok(1)
        }
    } else if stands(tokens, 0, keyword("crate"@)) && !colons_at(tokens, 1) {
        Ok(1)
    } else {
        Ok(0)
    }
}

/// An opening bracket.
pub open spec fn opens(c: char) -> bool {
    c == '(' || c == '[' || c == '<' || c == '{'
}

/// A closing bracket.
pub open spec fn closes(c: char) -> bool {
    c == ')' || c == ']' || c == '>' || c == '}'
}

/// Where the type that starts at `pos` ends. `depth` counts the brackets
/// of the type that are open, and `after_dash` says that the token before was
/// a `-`: then a `>` is the head of an arrow and closes nothing.
pub open spec fn type_end(tokens: Seq<TokenView>, pos: int, depth: nat, after_dash: bool) -> int
    decreases tokens.len() - pos,
{
    if pos < 0 || pos >= tokens.len() {
        pos
    } else {
        match tokens[pos] {
            TokenView::Punct(c) => if c == '>' && after_dash {
                type_end(tokens, pos + 1, depth, false)
            } else if opens(c) {
                type_end(tokens, pos + 1, depth + 1, false)
            } else if closes(c) {
                if depth == 0 {
                    pos
                } else {
                    type_end(tokens, pos + 1, (depth - 1) as nat, false)
                }
            } else if depth == 0 && (c == ',' || c == ';') {
                pos
            } else {
                type_end(tokens, pos + 1, depth, c == '-')
            },
            _ => type_end(tokens, pos + 1, depth, false),
        }
    }
}

/// Where the receiver that starts at `pos` has its `self`, if a receiver
/// starts there at all.
pub open spec fn receiver_self(tokens: Seq<TokenView>, pos: int) -> int {
    let borrowed = if stands(tokens, pos, punct('&')) {
        if stands(tokens, pos + 1, punct('\'')) && names_at(tokens, pos + 2) {
            pos + 3
        } else {
            pos + 1
        }
    } else {
        pos
    };
    if stands(tokens, borrowed, keyword("mut"@)) {
        borrowed + 1
    } else {
        borrowed
    }
}

/// Reads the argument that starts at `pos`: the parameter, or nothing for a
/// receiver, and where the argument ends.
pub open spec fn parse_arg(tokens: Seq<TokenView>, pos: int) -> Result<
    (Option<ParamView>, int),
    ParseError,
> {
    let at_self = receiver_self(tokens, pos);
    if stands(tokens, at_self, keyword("self"@)) {
        Ok((None, at_self + 1))
    } else if at_self != pos {
        fail(at_self, Expected::Receiver)
    } else if !names_at(tokens, pos) {
        fail(pos, Expected::Name)
    } else if !stands(tokens, pos + 1, punct(':')) {
        fail(pos + 1, Expected::Colon)
    } else {
        let end = type_end(tokens, pos + 2, 0, false);
        if end <= pos + 2 {
            fail(pos + 2, Expected::Type)
        } else {
            Ok(
                (
                    Some(
                        ParamView { name: name_at(tokens, pos), ty: tokens.subrange(pos + 2, end) },
                    ),
                    end,
                ),
            )
        }
    }
}

/// The parameters that an argument adds to its method.
pub open spec fn param_of(arg: Option<ParamView>) -> Seq<ParamView> {
    match arg {
        Some(p) => seq![p],
        None => Seq::empty(),
    }
}

/// Reads the arguments that start at `pos`, behind the `(`: the parameters,
/// and where the `)` ends.
pub open spec fn parse_args(tokens: Seq<TokenView>, pos: int) -> Result<
    (Seq<ParamView>, int),
    ParseError,
>
    decreases tokens.len() - pos,
{
    if stands(tokens, pos, punct(')')) {
        Ok((Seq::empty(), pos + 1))
    } else {
        match parse_arg(tokens, pos) {
            Err(e) => Err(e),
            Ok((arg, next)) => if stands(tokens, next, punct(')')) {
                Ok((param_of(arg), next + 1))
            } else if stands(tokens, next, punct(',')) && next >= pos {
                match parse_args(tokens, next + 1) {
                    Err(e) => Err(e),
                    Ok((rest, end)) => Ok((param_of(arg) + rest, end)),
                }
            } else {
                fail(next, Expected::CommaOrCloseParen)
            },
        }
    }
}

/// Reads the method that starts at `pos`: the method, and where it ends.
pub open spec fn parse_method(tokens: Seq<TokenView>, pos: int) -> Result<
    (MethodSpecView, int),
    ParseError,
> {
    if !stands(tokens, pos, keyword("async"@)) {
        fail(pos, Expected::Method)
    } else if !stands(tokens, pos + 1, keyword("fn"@)) {
        fail(pos + 1, Expected::Fn)
    } else if !names_at(tokens, pos + 2) {
        fail(pos + 2, Expected::Name)
    } else if !stands(tokens, pos + 3, punct('(')) {
        fail(pos + 3, Expected::OpenParen)
    } else {
        match parse_args(tokens, pos + 4) {
            Err(e) => Err(e),
            Ok((params, next)) => if !stands(tokens, next, punct(';')) {
                fail(next, Expected::Semicolon)
            } else {
                Ok((MethodSpecView { name: name_at(tokens, pos + 2), params }, next + 1))
            },
        }
    }
}

/// Reads the methods that start at `pos`, behind the `{`: the methods, and
/// where the `}` ends.
pub open spec fn parse_methods(tokens: Seq<TokenView>, pos: int) -> Result<
    (Seq<MethodSpecView>, int),
    ParseError,
>
    decreases tokens.len() - pos,
{
    if stands(tokens, pos, punct('}')) {
        Ok((Seq::empty(), pos + 1))
    } else {
        match parse_method(tokens, pos) {
            Err(e) => Err(e),
            Ok((method, next)) => if next > pos {
                match parse_methods(tokens, next) {
                    Err(e) => Err(e),
                    Ok((rest, end)) => Ok((seq![method] + rest, end)),
                }
            } else {
                fail(next, Expected::Method)
            },
        }
    }
}

/// What tokens mean as a declaration: the declared service, or what is
/// missing where.
pub open spec fn parse_service(tokens: Seq<TokenView>) -> Result<ServiceSpecView, ParseError> {
    match after_visibility(tokens) {
        Err(e) => Err(e),
        Ok(start) => parse_trait(tokens, start),
    }
}

/// What the tokens from `start` on mean as a declaration without
/// visibility.
pub open spec fn parse_trait(tokens: Seq<TokenView>, start: int) -> Result<
    ServiceSpecView,
    ParseError,
> {
    if !stands(tokens, start, keyword("trait"@)) {
        fail(start, Expected::Trait)
    } else if !names_at(tokens, start + 1) {
        fail(start + 1, Expected::Name)
    } else if !stands(tokens, start + 2, punct('{')) {
        fail(start + 2, Expected::OpenBrace)
    } else {
        match parse_methods(tokens, start + 3) {
            Err(e) => Err(e),
            Ok((methods, end)) => if end != tokens.len() {
                fail(end, Expected::End)
            } else {
                Ok(ServiceSpecView { name: name_at(tokens, start + 1), methods })
            },
        }
    }
}

/// The tokens of a parameter.
pub open spec fn param_tokens(param: ParamView) -> Seq<TokenView> {
    seq![TokenView::Ident(param.name), punct(':')] + param.ty
}

/// The tokens of the arguments of a method, from behind the `(` to the `)`.
pub open spec fn args_tokens(params: Seq<ParamView>) -> Seq<TokenView>
    decreases params.len(),
{
    if params.len() == 0 {
        seq![punct(')')]
    } else if params.len() == 1 {
        param_tokens(params[0]) + seq![punct(')')]
    } else {
        param_tokens(params[0]) + seq![punct(',')] + args_tokens(params.drop_first())
    }
}

/// The tokens of a method.
pub open spec fn method_tokens(method: MethodSpecView) -> Seq<TokenView> {
    seq![keyword("async"@), keyword("fn"@), TokenView::Ident(method.name), punct('(')]
        + args_tokens(method.params) + seq![punct(';')]
}

/// The tokens of the methods of a service, from behind the `{` to the `}`.
pub open spec fn methods_tokens(methods: Seq<MethodSpecView>) -> Seq<TokenView>
    decreases methods.len(),
{
    if methods.len() == 0 {
        seq![punct('}')]
    } else {
        method_tokens(methods[0]) + methods_tokens(methods.drop_first())
    }
}

/// The tokens of a declaration, written without visibility and without
/// receivers.
pub open spec fn service_tokens(service: ServiceSpecView) -> Seq<TokenView> {
    seq![keyword("trait"@), TokenView::Ident(service.name), punct('{')] + methods_tokens(
        service.methods,
    )
}

/// Whether a reader that stands at token `i` of a type, with `depth`
/// brackets open, reaches the end of the type, and with how many brackets
/// open.
pub open spec fn type_scan(ty: Seq<TokenView>, i: int, depth: nat, after_dash: bool) -> Option<nat>
    decreases ty.len() - i,
{
    if i < 0 || i >= ty.len() {
        Some(depth)
    } else {
        match ty[i] {
            TokenView::Punct(c) => if c == '>' && after_dash {
                type_scan(ty, i + 1, depth, false)
            } else if opens(c) {
                type_scan(ty, i + 1, depth + 1, false)
            } else if closes(c) {
                if depth == 0 {
                    None
                } else {
                    type_scan(ty, i + 1, (depth - 1) as nat, false)
                }
            } else if depth == 0 && (c == ',' || c == ';') {
                None
            } else {
                type_scan(ty, i + 1, depth, c == '-')
            },
            _ => type_scan(ty, i + 1, depth, false),
        }
    }
}

/// The tokens can stand for a type: there is at least one, every bracket
/// that closes was opened, every bracket that was opened closes, and no `,`
/// or `;` stands outside of brackets.
pub open spec fn plain_type(ty: Seq<TokenView>) -> bool {
    ty.len() > 0 && type_scan(ty, 0, 0, false) == Some(0nat)
}

/// Every parameter of every method has a type that can stand for one.
pub open spec fn printable(service: ServiceSpecView) -> bool {
    forall|m: int, p: int|
        0 <= m < service.methods.len() && 0 <= p < service.methods[m].params.len()
            ==> plain_type(#[trigger] service.methods[m].params[p].ty)
}

/// `part` stands in `tokens` from `pos` on.
pub open spec fn window(tokens: Seq<TokenView>, pos: int, part: Seq<TokenView>) -> bool {
    &&& 0 <= pos
    &&& pos + part.len() <= tokens.len()
    &&& forall|i: int| 0 <= i < part.len() ==> tokens[pos + i] == #[trigger] part[i]
}

/// What stands in the tokens stands there part by part.
proof fn lemma_window_split(
    tokens: Seq<TokenView>,
    pos: int,
    head: Seq<TokenView>,
    tail: Seq<TokenView>,
)
    requires
        window(tokens, pos, head + tail),
    ensures
        window(tokens, pos, head),
        window(tokens, pos + head.len(), tail),
{
    let whole = head + tail;
    assert forall|i: int| 0 <= i < head.len() implies tokens[pos + i] == #[trigger] head[i] by {
        assert(whole[i] == head[i]);
    }
    assert forall|i: int| 0 <= i < tail.len() implies tokens[pos + head.len() + i]
        == #[trigger] tail[i] by {
        assert(whole[head.len() + i] == tail[i]);
    }
}

/// A type that stands before a `,` or a `)` ends there.
proof fn lemma_type_end(
    tokens: Seq<TokenView>,
    pos: int,
    ty: Seq<TokenView>,
    i: int,
    depth: nat,
    after_dash: bool,
)
    requires
        window(tokens, pos, ty),
        0 <= i <= ty.len(),
        stands(tokens, pos + ty.len(), punct(',')) || stands(tokens, pos + ty.len(), punct(')')),
        type_scan(ty, i, depth, after_dash) == Some(0nat),
    ensures
        type_end(tokens, pos + i, depth, after_dash) == pos + ty.len(),
    decreases ty.len() - i,
{
    if i < ty.len() {
        assert(tokens[pos + i] == ty[i]);
        match ty[i] {
            TokenView::Punct(c) => {
                if c == '>' && after_dash {
                    lemma_type_end(tokens, pos, ty, i + 1, depth, false);
                } else if opens(c) {
                    lemma_type_end(tokens, pos, ty, i + 1, depth + 1, false);
                } else if closes(c) {
                    lemma_type_end(tokens, pos, ty, i + 1, (depth - 1) as nat, false);
                } else {
                    lemma_type_end(tokens, pos, ty, i + 1, depth, c == '-');
                }
            },
            _ => {
                lemma_type_end(tokens, pos, ty, i + 1, depth, false);
            },
        }
    }
}

/// Written arguments are read back.
proof fn lemma_parse_args(tokens: Seq<TokenView>, pos: int, params: Seq<ParamView>)
    requires
        window(tokens, pos, args_tokens(params)),
        forall|p: int| 0 <= p < params.len() ==> plain_type(#[trigger] params[p].ty),
    ensures
        parse_args(tokens, pos) == Ok::<(Seq<ParamView>, int), ParseError>(
            (params, pos + args_tokens(params).len()),
        ),
    decreases params.len(),
{
    if params.len() == 0 {
        assert(args_tokens(params)[0] == punct(')'));
        assert(params =~= Seq::<ParamView>::empty());
    } else {
        let first = params[0];
        let head = param_tokens(first);
        let rest = params.drop_first();
        let tail = if params.len() == 1 {
            seq![punct(')')]
        } else {
            seq![punct(',')] + args_tokens(rest)
        };
        assert(args_tokens(params) =~= head + tail);
        lemma_window_split(tokens, pos, head, tail);
        lemma_window_split(tokens, pos, seq![TokenView::Ident(first.name), punct(':')], first.ty);
        assert(tokens[pos] == head[0]);
        assert(tokens[pos + 1] == head[1]);
        let end = pos + 2 + first.ty.len();
        assert(tokens[end] == tail[0]);
        assert(plain_type(first.ty));
        lemma_type_end(tokens, pos + 2, first.ty, 0, 0, false);
        assert(tokens.subrange(pos + 2, end) =~= first.ty);
        assert(receiver_self(tokens, pos) == pos);
        assert(parse_arg(tokens, pos) == Ok::<(Option<ParamView>, int), ParseError>(
            (Some(first), end),
        ));
        if params.len() == 1 {
            assert(param_of(Some(first)) =~= params);
        } else {
            lemma_window_split(tokens, end, seq![punct(',')], args_tokens(rest));
            assert forall|p: int| 0 <= p < rest.len() implies plain_type(#[trigger] rest[p].ty) by {
                assert(rest[p] == params[p + 1]);
            }
            lemma_parse_args(tokens, end + 1, rest);
            assert(param_of(Some(first)) + rest =~= params);
        }
    }
}

/// A written method is read back.
proof fn lemma_parse_method(tokens: Seq<TokenView>, pos: int, method: MethodSpecView)
    requires
        window(tokens, pos, method_tokens(method)),
        forall|p: int| 0 <= p < method.params.len() ==> plain_type(#[trigger] method.params[p].ty),
    ensures
        parse_method(tokens, pos) == Ok::<(MethodSpecView, int), ParseError>(
            (method, pos + method_tokens(method).len()),
        ),
{
    let head = seq![
        keyword("async"@),
        keyword("fn"@),
        TokenView::Ident(method.name),
        punct('('),
    ];
    let args = args_tokens(method.params);
    assert(method_tokens(method) =~= head + (args + seq![punct(';')]));
    lemma_window_split(tokens, pos, head, args + seq![punct(';')]);
    lemma_window_split(tokens, pos + 4, args, seq![punct(';')]);
    assert(tokens[pos] == head[0]);
    assert(tokens[pos + 1] == head[1]);
    assert(tokens[pos + 2] == head[2]);
    assert(tokens[pos + 3] == head[3]);
    lemma_parse_args(tokens, pos + 4, method.params);
    assert(tokens[pos + 4 + args.len()] == seq![punct(';')][0]);
}

/// Written methods are read back.
proof fn lemma_parse_methods(tokens: Seq<TokenView>, pos: int, methods: Seq<MethodSpecView>)
    requires
        window(tokens, pos, methods_tokens(methods)),
        forall|m: int, p: int|
            0 <= m < methods.len() && 0 <= p < methods[m].params.len() ==> plain_type(
                #[trigger] methods[m].params[p].ty,
            ),
    ensures
        parse_methods(tokens, pos) == Ok::<(Seq<MethodSpecView>, int), ParseError>(
            (methods, pos + methods_tokens(methods).len()),
        ),
    decreases methods.len(),
{
    if methods.len() == 0 {
        assert(methods_tokens(methods)[0] == punct('}'));
        assert(methods =~= Seq::<MethodSpecView>::empty());
    } else {
        let first = methods[0];
        let rest = methods.drop_first();
        lemma_window_split(tokens, pos, method_tokens(first), methods_tokens(rest));
        assert(tokens[pos] == method_tokens(first)[0]);
        assert forall|p: int| 0 <= p < first.params.len() implies plain_type(
            #[trigger] first.params[p].ty,
        ) by {
            assert(plain_type(methods[0].params[p].ty));
        }
        lemma_parse_method(tokens, pos, first);
        assert forall|m: int, p: int|
            0 <= m < rest.len() && 0 <= p < rest[m].params.len() implies plain_type(
            #[trigger] rest[m].params[p].ty,
        ) by {
            assert(rest[m] == methods[m + 1]);
            assert(plain_type(methods[m + 1].params[p].ty));
        }
        lemma_parse_methods(tokens, pos + method_tokens(first).len(), rest);
        assert(seq![first] + rest =~= methods);
    }
}

/// What is written is read back: the tokens of a declaration whose types can
/// stand for types mean that declaration.
pub proof fn lemma_parse_written(service: ServiceSpecView)
    requires
        printable(service),
    ensures
        parse_service(service_tokens(service)) == Ok::<ServiceSpecView, ParseError>(service),
{
    let tokens = service_tokens(service);
    let head = seq![keyword("trait"@), TokenView::Ident(service.name), punct('{')];
    reveal_strlit("trait");
    reveal_strlit("pub");
    reveal_strlit("crate");
    assert("trait"@.len() != "pub"@.len());
    assert("trait"@[0] != "crate"@[0]);
    assert(after_visibility(tokens) == Ok::<int, ParseError>(0));
    assert(tokens[0] == head[0]);
    assert(tokens[1] == head[1]);
    assert(tokens[2] == head[2]);
    assert(window(tokens, 0, head + methods_tokens(service.methods)));
    lemma_window_split(tokens, 0, head, methods_tokens(service.methods));
    lemma_parse_methods(tokens, 3, service.methods);
}

/// The parameters of a list as mathematical values, one for one.
pub open spec fn param_views(params: Seq<Param>) -> Seq<ParamView> {
    Seq::new(params.len(), |i: int| params[i]@)
}

/// The methods of a list as mathematical values, one for one.
pub open spec fn method_views(methods: Seq<MethodSpec>) -> Seq<MethodSpecView> {
    Seq::new(methods.len(), |i: int| methods[i]@)
}

/// An argument as a mathematical value.
pub open spec fn arg_view(arg: Option<Param>) -> Option<ParamView> {
    match arg {
        Some(p) => Some(p@),
        None => None,
    }
}

/// Whether the keyword `word` stands at `pos`.
fn keyword_at(tokens: &[Token], pos: usize, word: &str) -> (r: bool)
    ensures
        r == stands(token_views(tokens@), pos as int, keyword(word@)),
        r ==> pos < tokens@.len() && pos < usize::MAX,
{
    pos < tokens.len() && tokens[pos].is_keyword(word)
}

/// Whether the punctuation `c` stands at `pos`.
fn punct_at(tokens: &[Token], pos: usize, c: char) -> (r: bool)
    ensures
        r == stands(token_views(tokens@), pos as int, punct(c)),
        r ==> pos < tokens@.len() && pos < usize::MAX,
{
    pos < tokens.len() && tokens[pos].is_punct(c)
}

/// The name that stands at `pos`, if one does.
fn take_name(tokens: &[Token], pos: usize) -> (r: Option<String>)
    ensures
        r is Some <==> names_at(token_views(tokens@), pos as int),
        r is Some ==> pos < tokens@.len() && pos < usize::MAX,
        r matches Some(name) ==> name@ == name_at(token_views(tokens@), pos as int),
{
    if pos >= tokens.len() {
        return None;
    }
    match &tokens[pos] {
        Token::Ident(name) => Some(name.clone()),
        _ => None,
    }
}

/// Whether `::` stands at `pos`.
fn colons(tokens: &[Token], pos: usize) -> (r: bool)
    ensures
        r == colons_at(token_views(tokens@), pos as int),
        r ==> pos + 1 < tokens@.len() && pos + 1 < usize::MAX,
{
    punct_at(tokens, pos, ':') && punct_at(tokens, pos + 1, ':')
}

/// Whether a segment of a path stands at `pos`.
fn segment(tokens: &[Token], pos: usize) -> (r: bool)
    ensures
        r == segment_at(token_views(tokens@), pos as int),
        r ==> pos < tokens@.len() && pos < usize::MAX,
{
    take_name(tokens, pos).is_some() || keyword_at(tokens, pos, "super") || keyword_at(
        tokens,
        pos,
        "self",
    ) || keyword_at(tokens, pos, "Self") || keyword_at(tokens, pos, "crate")
}

/// Finds the end of the path that starts at `pos`.
fn find_path_end(tokens: &[Token], pos: usize) -> (r: Result<usize, ParseError>)
    requires
        pos <= tokens@.len(),
    ensures
        match r {
            Ok(end) => pos < end <= tokens@.len() && path_end(token_views(tokens@), pos as int)
                == Ok::<int, ParseError>(end as int),
            Err(e) => path_end(token_views(tokens@), pos as int) == Err::<int, ParseError>(e),
        },
{
    let ghost all = token_views(tokens@);
    let first = if colons(tokens, pos) {
        pos + 2
    } else {
        pos
    };
    if !segment(tokens, first) {
        return Err(ParseError { at: first, expected: Expected::Path });
    }
    let mut at = first;
    loop
        invariant
            all == token_views(tokens@),
            pos <= first <= at < tokens@.len(),
            at < usize::MAX,
            first == if colons_at(all, pos as int) {
                pos + 2
            } else {
                pos as int
            },
            segment_at(all, first as int),
            segment_at(all, at as int),
            segments_end(all, first as int) == segments_end(all, at as int),
        decreases tokens@.len() - at,
    {
        if !colons(tokens, at + 1) {
            return Ok(at + 1);
        }
        if !segment(tokens, at + 3) {
            return Err(ParseError { at: at + 3, expected: Expected::PathSegment });
        }
        at = at + 3;
    }
}

/// Skips the visibility.
fn find_start(tokens: &[Token]) -> (r: Result<usize, ParseError>)
    ensures
        match r {
            Ok(start) => start <= tokens@.len() && after_visibility(token_views(tokens@)) == Ok::<
                int,
                ParseError,
            >(start as int),
            Err(e) => after_visibility(token_views(tokens@)) == Err::<int, ParseError>(e),
        },
{
    if keyword_at(tokens, 0, "pub") {
        if !punct_at(tokens, 1, '(') {
            return Ok(1);
        }
        if keyword_at(tokens, 2, "crate") || keyword_at(tokens, 2, "self") || keyword_at(
            tokens,
            2,
            "super",
        ) {
            if punct_at(tokens, 3, ')') {
                return Ok(4);
            }
            return Ok(1);
        }
        if !keyword_at(tokens, 2, "in") {
            return Ok(1);
        }
        match find_path_end(tokens, 3) {
            Err(e) => Err(e),
            Ok(end) => {
                if punct_at(tokens, end, ')') {
                    Ok(end + 1)
                } else {
                    Err(ParseError { at: end, expected: Expected::CloseParen })
                }
            },
        }
    } else if keyword_at(tokens, 0, "crate") && !colons(tokens, 1) {
        Ok(1)
    } else {
        Ok(0)
    }
}

/// Finds the end of the type that starts at `start`.
fn find_type_end(tokens: &[Token], start: usize) -> (end: usize)
    requires
        start <= tokens@.len(),
    ensures
        end == type_end(token_views(tokens@), start as int, 0, false),
        start <= end <= tokens@.len(),
{
    let ghost all = token_views(tokens@);
    let mut pos = start;
    let mut depth: usize = 0;
    let mut after_dash = false;
    while pos < tokens.len()
        invariant
            all == token_views(tokens@),
            start <= pos <= tokens@.len(),
            depth <= pos - start,
            type_end(all, start as int, 0, false) == type_end(
                all,
                pos as int,
                depth as nat,
                after_dash,
            ),
        decreases tokens@.len() - pos,
    {
        match &tokens[pos] {
            Token::Punct(c) => {
                let c = *c;
                if c == '>' && after_dash {
                    after_dash = false;
                } else if c == '(' || c == '[' || c == '<' || c == '{' {
                    depth += 1;
                    after_dash = false;
                } else if c == ')' || c == ']' || c == '>' || c == '}' {
                    if depth == 0 {
                        return pos;
                    }
                    depth -= 1;
                    after_dash = false;
                } else if depth == 0 && (c == ',' || c == ';') {
                    return pos;
                } else {
                    after_dash = c == '-';
                }
            },
            _ => {
                after_dash = false;
            },
        }
        pos += 1;
    }
    pos
}

/// Finds where the receiver that starts at `pos` has its `self`.
fn find_receiver_self(tokens: &[Token], pos: usize) -> (at_self: usize)
    requires
        pos <= tokens@.len(),
    ensures
        at_self == receiver_self(token_views(tokens@), pos as int),
        pos <= at_self <= tokens@.len(),
{
    let mut at = pos;
    if punct_at(tokens, at, '&') {
        at += 1;
        if punct_at(tokens, at, '\'') && take_name(tokens, at + 1).is_some() {
            at += 2;
        }
    }
    if keyword_at(tokens, at, "mut") {
        at += 1;
    }
    at
}

/// Reads one argument.
fn read_arg(tokens: &[Token], pos: usize) -> (r: Result<(Option<Param>, usize), ParseError>)
    requires
        pos <= tokens@.len(),
    ensures
        match r {
            Ok((arg, next)) => {
                &&& pos < next <= tokens@.len()
                &&& parse_arg(token_views(tokens@), pos as int) == Ok::<
                    (Option<ParamView>, int),
                    ParseError,
                >((arg_view(arg), next as int))
            },
            Err(e) => parse_arg(token_views(tokens@), pos as int) == Err::<
                (Option<ParamView>, int),
                ParseError,
            >(e),
        },
{
    let at_self = find_receiver_self(tokens, pos);
    if keyword_at(tokens, at_self, "self") {
        return Ok((None, at_self + 1));
    }
    if at_self != pos {
        return Err(ParseError { at: at_self, expected: Expected::Receiver });
    }
    let name = match take_name(tokens, pos) {
        None => {
            return Err(ParseError { at: pos, expected: Expected::Name });
        },
        Some(name) => name,
    };
    if !punct_at(tokens, pos + 1, ':') {
        return Err(ParseError { at: pos + 1, expected: Expected::Colon });
    }
    let end = find_type_end(tokens, pos + 2);
    if end <= pos + 2 {
        return Err(ParseError { at: pos + 2, expected: Expected::Type });
    }
    let ty = copy_tokens(tokens, pos + 2, end);
    Ok((Some(Param { name, ty }), end))
}

/// Reads the arguments of a method, up to the `)`.
fn read_args(tokens: &[Token], start: usize) -> (r: Result<(Vec<Param>, usize), ParseError>)
    requires
        start <= tokens@.len(),
    ensures
        match r {
            Ok((params, next)) => {
                &&& start < next <= tokens@.len()
                &&& parse_args(token_views(tokens@), start as int) == Ok::<
                    (Seq<ParamView>, int),
                    ParseError,
                >((param_views(params@), next as int))
            },
            Err(e) => parse_args(token_views(tokens@), start as int) == Err::<
                (Seq<ParamView>, int),
                ParseError,
            >(e),
        },
{
    let ghost all = token_views(tokens@);
    let mut params: Vec<Param> = Vec::new();
    let mut pos = start;
    assert(param_views(params@) =~= Seq::<ParamView>::empty());
    loop
        invariant
            all == token_views(tokens@),
            start <= pos <= tokens@.len(),
            parse_args(all, start as int) == match parse_args(all, pos as int) {
                Err(e) => Err::<(Seq<ParamView>, int), ParseError>(e),
                Ok((rest, end)) => Ok((param_views(params@) + rest, end)),
            },
        decreases tokens@.len() - pos,
    {
        if punct_at(tokens, pos, ')') {
            assert(param_views(params@) + Seq::<ParamView>::empty() =~= param_views(params@));
            return Ok((params, pos + 1));
        }
        let ghost before = param_views(params@);
        match read_arg(tokens, pos) {
            Err(e) => {
                return Err(e);
            },
            Ok((arg, next)) => {
                let ghost found = param_of(arg_view(arg));
                match arg {
                    Some(p) => {
                        params.push(p);
                    },
                    None => {},
                }
                assert(param_views(params@) =~= before + found);
                if punct_at(tokens, next, ')') {
                    return Ok((params, next + 1));
                } else if punct_at(tokens, next, ',') {
                    proof {
                        match parse_args(all, next + 1) {
                            Err(_) => {},
                            Ok((rest, _)) => {
                                assert(before + (found + rest) =~= (before + found) + rest);
                            },
                        }
                    }
                    pos = next + 1;
                } else {
                    return Err(ParseError { at: next, expected: Expected::CommaOrCloseParen });
                }
            },
        }
    }
}

/// Reads one method.
fn read_method(tokens: &[Token], pos: usize) -> (r: Result<(MethodSpec, usize), ParseError>)
    requires
        pos <= tokens@.len(),
    ensures
        match r {
            Ok((method, next)) => {
                &&& pos < next <= tokens@.len()
                &&& parse_method(token_views(tokens@), pos as int) == Ok::<
                    (MethodSpecView, int),
                    ParseError,
                >((method@, next as int))
            },
            Err(e) => parse_method(token_views(tokens@), pos as int) == Err::<
                (MethodSpecView, int),
                ParseError,
            >(e),
        },
{
    if !keyword_at(tokens, pos, "async") {
        return Err(ParseError { at: pos, expected: Expected::Method });
    }
    if !keyword_at(tokens, pos + 1, "fn") {
        return Err(ParseError { at: pos + 1, expected: Expected::Fn });
    }
    let name = match take_name(tokens, pos + 2) {
        None => {
            return Err(ParseError { at: pos + 2, expected: Expected::Name });
        },
        Some(name) => name,
    };
    if !punct_at(tokens, pos + 3, '(') {
        return Err(ParseError { at: pos + 3, expected: Expected::OpenParen });
    }
    match read_args(tokens, pos + 4) {
        Err(e) => Err(e),
        Ok((params, next)) => {
            if !punct_at(tokens, next, ';') {
                return Err(ParseError { at: next, expected: Expected::Semicolon });
            }
            let method = MethodSpec { name, params };
            assert(method@.params =~= param_views(params@));
            Ok((method, next + 1))
        },
    }
}

/// Reads the methods of a service, up to the `}`.
fn read_methods(tokens: &[Token], start: usize) -> (r: Result<(Vec<MethodSpec>, usize), ParseError>)
    requires
        start <= tokens@.len(),
    ensures
        match r {
            Ok((methods, next)) => {
                &&& start < next <= tokens@.len()
                &&& parse_methods(token_views(tokens@), start as int) == Ok::<
                    (Seq<MethodSpecView>, int),
                    ParseError,
                >((method_views(methods@), next as int))
            },
            Err(e) => parse_methods(token_views(tokens@), start as int) == Err::<
                (Seq<MethodSpecView>, int),
                ParseError,
            >(e),
        },
{
    let ghost all = token_views(tokens@);
    let mut methods: Vec<MethodSpec> = Vec::new();
    let mut pos = start;
    assert(method_views(methods@) =~= Seq::<MethodSpecView>::empty());
    loop
        invariant
            all == token_views(tokens@),
            start <= pos <= tokens@.len(),
            parse_methods(all, start as int) == match parse_methods(all, pos as int) {
                Err(e) => Err::<(Seq<MethodSpecView>, int), ParseError>(e),
                Ok((rest, end)) => Ok((method_views(methods@) + rest, end)),
            },
        decreases tokens@.len() - pos,
    {
        if punct_at(tokens, pos, '}') {
            assert(method_views(methods@) + Seq::<MethodSpecView>::empty() =~= method_views(
                methods@,
            ));
            return Ok((methods, pos + 1));
        }
        let ghost before = method_views(methods@);
        match read_method(tokens, pos) {
            Err(e) => {
                return Err(e);
            },
            Ok((method, next)) => {
                let ghost found = method@;
                methods.push(method);
                proof {
                    assert(method_views(methods@) =~= before.push(found));
                    match parse_methods(all, next as int) {
                        Err(_) => {},
                        Ok((rest, _)) => {
                            assert(before + (seq![found] + rest) =~= before.push(found) + rest);
                        },
                    }
                }
                pos = next;
            },
        }
    }
}

/// Reads a declaration from its tokens.
pub fn parse(tokens: &[Token]) -> (r: Result<ServiceSpec, ParseError>)
    ensures
        match r {
            Ok(spec) => parse_service(token_views(tokens@)) == Ok::<ServiceSpecView, ParseError>(
                spec@,
            ),
            Err(e) => parse_service(token_views(tokens@)) == Err::<ServiceSpecView, ParseError>(e),
        },
{
    let start = match find_start(tokens) {
        Err(e) => {
            return Err(e);
        },
        Ok(start) => start,
    };
    if !keyword_at(tokens, start, "trait") {
        return Err(ParseError { at: start, expected: Expected::Trait });
    }
    let name = match take_name(tokens, start + 1) {
        None => {
            return Err(ParseError { at: start + 1, expected: Expected::Name });
        },
        Some(name) => name,
    };
    if !punct_at(tokens, start + 2, '{') {
        return Err(ParseError { at: start + 2, expected: Expected::OpenBrace });
    }
    match read_methods(tokens, start + 3) {
        Err(e) => Err(e),
        Ok((methods, end)) => {
            if end != tokens.len() {
                return Err(ParseError { at: end, expected: Expected::End });
            }
            let spec = ServiceSpec { name, methods };
            assert(spec@.methods =~= method_views(methods@));
            Ok(spec)
        },
    }
}

} // verus!
