//! The grammar: from tokens to syntax.
//!
//! ```text
//! unit       = { class | def }
//! class      = "class" NAME [ params ] { def } "end"
//! def        = "def" NAME [ params ] [ ":" NAME ] { expr } "end"
//! params     = "(" [ param { "," param } ] ")"
//! param      = NAME ":" NAME
//! expr       = NAME "=" expr | call
//! call       = primary { "." NAME args }
//! primary    = NAME args | NAME | NUMBER | TEXT
//! args       = "(" [ expr { "," expr } ] ")"
//! ```
//!
//! Each function of the grammar has a model, `parsed_`, that says for the
//! tokens from a place on what is read and where reading goes on; the
//! function itself reads the same.
use vstd::prelude::*;
use vstd::string::{is_ascii, StrSliceExecFns, StringExecFns};
use crate::ast;
use crate::parse::lexer::{Token, TokenKind};
use crate::semantics::{
    unlinked_class, unlinked_expr, unlinked_exprs, unlinked_func, unlinked_funcs, unlinked_id,
    unlinked_mod, unlinked_mod_unit, unlinked_param, unlinked_params, unlinked_type,
};
use crate::tree::{
    AssignmentView, ClassView, ExprView, InvokeView, ItemView, LiteralStringView, MethodView, Num,
    ParamView, SpanView, TypeView, VarView,
};

verus! {

/// A text and its tokens.
pub struct Input {
    pub chars: Seq<char>,
    pub tokens: Seq<Token>,
}

/// The bytes of an ASCII text.
pub open spec fn ascii_bytes(chars: Seq<char>) -> Seq<u8> {
    Seq::new(chars.len(), |i: int| chars[i] as u8)
}

/// The number that the digits from `start` up to `end` write.
pub open spec fn number_value(bytes: Seq<u8>, start: int, end: int) -> int
    decreases end - start,
{
    if end <= start {
        0
    } else {
        number_value(bytes, start, end - 1) * 10 + digit_value(bytes[end - 1])
    }
}

impl Input {
    /// There is a token at `pos` and it is of the kind `kind`.
    pub open spec fn is(self, pos: int, kind: TokenKind) -> bool {
        0 <= pos < self.tokens.len() && self.tokens[pos].kind == kind
    }

    /// The text of the token at `pos` and its place.
    pub open spec fn name(self, pos: int) -> SpanView {
        SpanView {
            line: self.tokens[pos].line,
            col: self.tokens[pos].col,
            fragment: self.chars.subrange(
                self.tokens[pos].start as int,
                self.tokens[pos].end as int,
            ),
        }
    }

    /// The number that the token at `pos` writes.
    pub open spec fn value(self, pos: int) -> int {
        number_value(
            ascii_bytes(self.chars),
            self.tokens[pos].start as int,
            self.tokens[pos].end as int,
        )
    }

    /// A type annotation that names the token at `pos`.
    pub open spec fn tpe(self, pos: int) -> TypeView {
        TypeView { span: Some(self.name(pos)), class_def: None }
    }
}

/// No type annotation.
pub open spec fn no_tpe() -> TypeView {
    TypeView { span: None, class_def: None }
}

/// `param = NAME ":" NAME`
pub open spec fn parsed_param(input: Input, pos: int) -> Option<(ParamView, int)> {
    if input.is(pos, TokenKind::Name) && input.is(pos + 1, TokenKind::Colon) && input.is(
        pos + 2,
        TokenKind::Name,
    ) {
        Some((ParamView { name: input.name(pos), tpe: input.tpe(pos + 2) }, pos + 3))
    } else {
        None
    }
}

/// `{ "," param } ")"`, after the parameters `read`.
pub open spec fn parsed_more_params(input: Input, pos: int, read: Seq<ParamView>) -> Option<
    (Seq<ParamView>, int),
>
    decreases input.tokens.len() - pos,
{
    if input.is(pos, TokenKind::RightParen) {
        Some((read, pos + 1))
    } else if input.is(pos, TokenKind::Comma) {
        match parsed_param(input, pos + 1) {
            Some((param, next)) => parsed_more_params(input, next, read.push(param)),
            None => None,
        }
    } else {
        None
    }
}

/// `[ params ]`
pub open spec fn parsed_params(input: Input, pos: int) -> Option<(Seq<ParamView>, int)> {
    if input.is(pos, TokenKind::LeftParen) {
        if input.is(pos + 1, TokenKind::RightParen) {
            Some((Seq::empty(), pos + 2))
        } else {
            match parsed_param(input, pos + 1) {
                Some((param, next)) => parsed_more_params(input, next, seq![param]),
                None => None,
            }
        }
    } else {
        Some((Seq::empty(), pos))
    }
}

/// `expr = NAME "=" expr | call`
pub open spec fn parsed_expr(input: Input, pos: int) -> Option<(ExprView, int)>
    decreases input.tokens.len() - pos, 3int,
{
    if input.is(pos, TokenKind::Name) && input.is(pos + 1, TokenKind::Assign) {
        match parsed_expr(input, pos + 2) {
            Some((expr, next)) => Some(
                (
                    ExprView::Assignment(
                        Box::new(
                            AssignmentView {
                                var: VarView { name: input.name(pos), def: None },
                                expr,
                            },
                        ),
                    ),
                    next,
                ),
            ),
            None => None,
        }
    } else {
        parsed_call(input, pos)
    }
}

/// `call = primary { "." NAME args }`
pub open spec fn parsed_call(input: Input, pos: int) -> Option<(ExprView, int)>
    decreases input.tokens.len() - pos, 2int,
{
    match parsed_primary(input, pos) {
        Some((primary, next)) => if pos < next <= input.tokens.len() {
            parsed_more_calls(input, next, primary)
        } else {
            None
        },
        None => None,
    }
}

/// `{ "." NAME args }`, after the expression `receiver`.
pub open spec fn parsed_more_calls(input: Input, pos: int, receiver: ExprView) -> Option<
    (ExprView, int),
>
    decreases input.tokens.len() - pos, 1int,
{
    if input.is(pos, TokenKind::Dot) && input.is(pos + 1, TokenKind::Name) {
        match parsed_args(input, pos + 2) {
            Some((args, next)) => if pos < next <= input.tokens.len() {
                parsed_more_calls(
                    input,
                    next,
                    ExprView::Invoke(
                        Box::new(
                            InvokeView {
                                invoker_opt: Some(receiver),
                                name: input.name(pos + 1),
                                args,
                                method_def: None,
                            },
                        ),
                    ),
                )
            } else {
                None
            },
            None => None,
        }
    } else {
        Some((receiver, pos))
    }
}

/// `primary = NAME args | NAME | NUMBER | TEXT`. A number is one that a
/// 32-bit integer holds.
pub open spec fn parsed_primary(input: Input, pos: int) -> Option<(ExprView, int)>
    decreases input.tokens.len() - pos, 1int,
{
    if input.is(pos, TokenKind::Name) {
        if input.is(pos + 1, TokenKind::LeftParen) {
            match parsed_args(input, pos + 1) {
                Some((args, next)) => Some(
                    (
                        ExprView::Invoke(
                            Box::new(
                                InvokeView {
                                    invoker_opt: None,
                                    name: input.name(pos),
                                    args,
                                    method_def: None,
                                },
                            ),
                        ),
                        next,
                    ),
                ),
                None => None,
            }
        } else {
            Some((ExprView::Var(VarView { name: input.name(pos), def: None }), pos + 1))
        }
    } else if input.is(pos, TokenKind::Number) {
        if input.value(pos) <= i32::MAX {
            Some(
                (
                    ExprView::Num(
                        Num {
                            location: input.tokens[pos].location(),
                            value: input.value(pos) as i32,
                        },
                    ),
                    pos + 1,
                ),
            )
        } else {
            None
        }
    } else if input.is(pos, TokenKind::Text) {
        Some((ExprView::LiteralString(LiteralStringView { span: input.name(pos) }), pos + 1))
    } else {
        None
    }
}

/// `args = "(" [ expr { "," expr } ] ")"`
pub open spec fn parsed_args(input: Input, pos: int) -> Option<(Seq<ExprView>, int)>
    decreases input.tokens.len() - pos, 0int,
{
    if input.is(pos, TokenKind::LeftParen) {
        if input.is(pos + 1, TokenKind::RightParen) {
            Some((Seq::empty(), pos + 2))
        } else {
            match parsed_expr(input, pos + 1) {
                Some((expr, next)) => if pos < next <= input.tokens.len() {
                    parsed_more_args(input, next, seq![expr])
                } else {
                    None
                },
                None => None,
            }
        }
    } else {
        None
    }
}

/// `{ "," expr } ")"`, after the arguments `read`.
pub open spec fn parsed_more_args(input: Input, pos: int, read: Seq<ExprView>) -> Option<
    (Seq<ExprView>, int),
>
    decreases input.tokens.len() - pos, 0int,
{
    if input.is(pos, TokenKind::RightParen) {
        Some((read, pos + 1))
    } else if input.is(pos, TokenKind::Comma) {
        match parsed_expr(input, pos + 1) {
            Some((expr, next)) => if pos < next <= input.tokens.len() {
                parsed_more_args(input, next, read.push(expr))
            } else {
                None
            },
            None => None,
        }
    } else {
        None
    }
}

/// `{ expr } "end"`, after the expressions `read`.
pub open spec fn parsed_body(input: Input, pos: int, read: Seq<ExprView>) -> Option<
    (Seq<ExprView>, int),
>
    decreases input.tokens.len() - pos,
{
    if input.is(pos, TokenKind::End) {
        Some((read, pos + 1))
    } else {
        match parsed_expr(input, pos) {
            Some((expr, next)) => if pos < next <= input.tokens.len() {
                parsed_body(input, next, read.push(expr))
            } else {
                None
            },
            None => None,
        }
    }
}

/// `def = "def" NAME [ params ] [ ":" NAME ] { expr } "end"`
pub open spec fn parsed_def(input: Input, pos: int) -> Option<(MethodView, int)> {
    if input.is(pos, TokenKind::Def) && input.is(pos + 1, TokenKind::Name) {
        match parsed_params(input, pos + 2) {
            Some((params, after)) => {
                let typed = input.is(after, TokenKind::Colon) && input.is(
                    after + 1,
                    TokenKind::Name,
                );
                match parsed_body(
                    input,
                    if typed {
                        after + 2
                    } else {
                        after
                    },
                    Seq::empty(),
                ) {
                    Some((exprs, next)) => Some(
                        (
                            MethodView {
                                name: input.name(pos + 1),
                                params,
                                exprs,
                                return_type: if typed {
                                    input.tpe(after + 1)
                                } else {
                                    no_tpe()
                                },
                                parent_class: None,
                            },
                            next,
                        ),
                    ),
                    None => None,
                }
            },
            None => None,
        }
    } else {
        None
    }
}

/// `{ def } "end"`, after the methods `read`.
pub open spec fn parsed_methods(input: Input, pos: int, read: Seq<MethodView>) -> Option<
    (Seq<MethodView>, int),
>
    decreases input.tokens.len() - pos,
{
    if input.is(pos, TokenKind::End) {
        Some((read, pos + 1))
    } else {
        match parsed_def(input, pos) {
            Some((method, next)) => if pos < next <= input.tokens.len() {
                parsed_methods(input, next, read.push(method))
            } else {
                None
            },
            None => None,
        }
    }
}

/// `class = "class" NAME [ params ] { def } "end"`
pub open spec fn parsed_class(input: Input, pos: int) -> Option<(ClassView, int)> {
    if input.is(pos, TokenKind::Class) && input.is(pos + 1, TokenKind::Name) {
        match parsed_params(input, pos + 2) {
            Some((params, after)) => match parsed_methods(input, after, Seq::empty()) {
                Some((methods, next)) => Some(
                    (ClassView { name: input.name(pos + 1), params, methods }, next),
                ),
                None => None,
            },
            None => None,
        }
    } else {
        None
    }
}

/// `class | def`
pub open spec fn parsed_item(input: Input, pos: int) -> Option<(ItemView, int)> {
    if input.is(pos, TokenKind::Class) {
        match parsed_class(input, pos) {
            Some((class, next)) => Some((ItemView::Class(class), next)),
            None => None,
        }
    } else {
        match parsed_def(input, pos) {
            Some((method, next)) => Some((ItemView::Method(method), next)),
            None => None,
        }
    }
}

/// `{ class | def }` up to the end of the tokens, after the items `read`: the
/// items, or the place of the token at which an item should start and none
/// does.
pub open spec fn parsed_items(input: Input, pos: int, read: Seq<ItemView>) -> Result<
    Seq<ItemView>,
    int,
>
    decreases input.tokens.len() - pos,
{
    if pos >= input.tokens.len() {
        Ok(read)
    } else {
        match parsed_item(input, pos) {
            Some((item, next)) => if pos < next <= input.tokens.len() {
                parsed_items(input, next, read.push(item))
            } else {
                Err(pos)
            },
            None => Err(pos),
        }
    }
}

/// What is read ends after its start and within the tokens: reading an
/// expression always goes on, and never past the end.
pub proof fn law_expr_advances(input: Input, pos: int)
    requires
        0 <= pos,
    ensures
        parsed_expr(input, pos) matches Some((_, next)) ==> pos < next <= input.tokens.len(),
        parsed_call(input, pos) matches Some((_, next)) ==> pos < next <= input.tokens.len(),
        parsed_primary(input, pos) matches Some((_, next)) ==> pos < next <= input.tokens.len(),
        parsed_args(input, pos) matches Some((_, next)) ==> pos < next <= input.tokens.len(),
    decreases input.tokens.len() - pos,
{
    if pos < input.tokens.len() {
        law_expr_advances(input, pos + 1);
        if pos + 2 <= input.tokens.len() {
            law_expr_advances(input, pos + 2);
        }
        match parsed_primary(input, pos) {
            Some((primary, next)) => {
                lemma_more_calls_advance(input, next, primary);
            },
            None => {},
        }
        match parsed_expr(input, pos + 1) {
            Some((expr, next)) => {
                lemma_more_args_advance(input, next, seq![expr]);
            },
            None => {},
        }
    }
}

/// Reading further calls on a receiver never goes back, and never past the
/// end.
pub proof fn lemma_more_calls_advance(input: Input, pos: int, receiver: ExprView)
    requires
        0 <= pos <= input.tokens.len(),
    ensures
        parsed_more_calls(input, pos, receiver) matches Some((_, next)) ==> pos <= next
            <= input.tokens.len(),
    decreases input.tokens.len() - pos,
{
    if input.is(pos, TokenKind::Dot) && input.is(pos + 1, TokenKind::Name) {
        law_expr_advances(input, pos + 2);
        match parsed_args(input, pos + 2) {
            Some((args, next)) => {
                assert(pos < next <= input.tokens.len());
                lemma_more_calls_advance(
                    input,
                    next,
                    ExprView::Invoke(
                        Box::new(
                            InvokeView {
                                invoker_opt: Some(receiver),
                                name: input.name(pos + 1),
                                args,
                                method_def: None,
                            },
                        ),
                    ),
                );
            },
            None => {},
        }
    }
}

/// Reading further arguments always goes on, and never past the end.
pub proof fn lemma_more_args_advance(input: Input, pos: int, read: Seq<ExprView>)
    requires
        0 <= pos,
    ensures
        parsed_more_args(input, pos, read) matches Some((_, next)) ==> pos < next
            <= input.tokens.len(),
    decreases input.tokens.len() - pos,
{
    if input.is(pos, TokenKind::Comma) {
        law_expr_advances(input, pos + 1);
        match parsed_expr(input, pos + 1) {
            Some((expr, next)) => {
                lemma_more_args_advance(input, next, read.push(expr));
            },
            None => {},
        }
    }
}

/// The value of a byte as a decimal digit; a byte that is no digit counts
/// for nothing.
pub open spec fn digit_value(b: u8) -> int {
    if 48 <= b <= 57 {
        b - 48
    } else {
        0
    }
}

/// A numeral is worth at least as much as each of its beginnings.
pub proof fn lemma_number_value_grows(bytes: Seq<u8>, start: int, middle: int, end: int)
    requires
        start <= middle <= end,
    ensures
        0 <= number_value(bytes, start, middle) <= number_value(bytes, start, end),
    decreases end - middle,
{
    lemma_number_value_positive(bytes, start, middle);
    if middle < end {
        lemma_number_value_grows(bytes, start, middle, end - 1);
    }
}

/// A numeral is worth at least nothing.
pub proof fn lemma_number_value_positive(bytes: Seq<u8>, start: int, end: int)
    ensures
        0 <= number_value(bytes, start, end),
    decreases end - start,
{
    if start < end {
        lemma_number_value_positive(bytes, start, end - 1);
    }
}

/// Building one more expression adds its view to the views.
pub proof fn lemma_unlinked_exprs_push(exprs: Seq<ast::Expr>, expr: ast::Expr)
    ensures
        unlinked_exprs(exprs.push(expr)) == unlinked_exprs(exprs).push(unlinked_expr(expr)),
{
    assert(unlinked_exprs(exprs.push(expr)) =~= unlinked_exprs(exprs).push(unlinked_expr(expr)));
}

/// A reader of the tokens of a text.
pub struct Parser<'a> {
    source: &'a str,
    bytes: &'a [u8],
    tokens: &'a Vec<Token>,
}

impl<'a> Parser<'a> {
    /// The text and the tokens that the parser reads.
    pub closed spec fn input(&self) -> Input {
        Input { chars: self.source@, tokens: self.tokens@ }
    }

    /// The text is ASCII, and the tokens lie within it.
    pub closed spec fn ready(&self) -> bool {
        &&& is_ascii(self.source)
        &&& self.bytes@ == ascii_bytes(self.source@)
        &&& forall|i: int|
            0 <= i < self.tokens@.len() ==> (#[trigger] self.tokens@[i]).within(
                self.bytes@.len() as int,
            )
    }

    /// A parser for an ASCII text, its bytes and tokens that lie within it.
    pub fn new(source: &'a str, bytes: &'a [u8], tokens: &'a Vec<Token>) -> (parser: Parser<'a>)
        requires
            is_ascii(source),
            bytes@ == ascii_bytes(source@),
            forall|i: int|
                0 <= i < tokens@.len() ==> (#[trigger] tokens@[i]).within(bytes@.len() as int),
        ensures
            parser.ready(),
            parser.input() == (Input { chars: source@, tokens: tokens@ }),
    {
        Parser { source, bytes, tokens }
    }

    fn is(&self, pos: usize, kind: TokenKind) -> (found: bool)
        ensures
            found == self.input().is(pos as int, kind),
            found ==> pos < usize::MAX,
    {
        pos < self.tokens.len() && self.tokens[pos].kind == kind
    }

    fn name(&self, pos: usize) -> (id: ast::Id)
        requires
            self.ready(),
            pos < self.tokens@.len(),
        ensures
            unlinked_id(id) == self.input().name(pos as int),
    {
        let token = self.tokens[pos];
        assert(token.within(self.bytes@.len() as int));
        let text = self.source.substring_ascii(token.start, token.end);
        ast::Id { name: String::from_str(text), line: token.line, col: token.col }
    }

    fn tpe(&self, pos: usize) -> (tpe: ast::Type)
        requires
            self.ready(),
            pos < self.tokens@.len(),
        ensures
            unlinked_type(tpe) == self.input().tpe(pos as int),
    {
        ast::Type { id: Some(self.name(pos)) }
    }

    /// The number that the token at `pos` writes, if a 32-bit integer holds
    /// it.
    fn number(&self, pos: usize) -> (number: Option<i32>)
        requires
            self.ready(),
            pos < self.tokens@.len(),
        ensures
            match number {
                Some(value) => value == self.input().value(pos as int),
                None => self.input().value(pos as int) > i32::MAX,
            },
    {
        let token = self.tokens[pos];
        assert(token.within(self.bytes@.len() as int));
        let mut value: i64 = 0;
        let mut k: usize = token.start;
        while k < token.end
            invariant
                token.start <= k <= token.end <= self.bytes@.len(),
                self.bytes@ == ascii_bytes(self.source@),
                self.input() == (Input { chars: self.source@, tokens: self.tokens@ }),
                token == self.tokens@[pos as int],
                pos < self.tokens@.len(),
                0 <= value <= i32::MAX,
                value == number_value(self.bytes@, token.start as int, k as int),
            decreases token.end - k,
        {
            let b: u8 = self.bytes[k];
            let digit: i64 = if 48 <= b && b <= 57 {
                (b - 48) as i64
            } else {
                0
            };
            value = value * 10 + digit;
            k += 1;
            if value > 2147483647 {
                proof {
                    lemma_number_value_grows(
                        self.bytes@,
                        token.start as int,
                        k as int,
                        token.end as int,
                    );
                }
                return None;
            }
        }
        Some(value as i32)
    }

    fn parse_param(&self, pos: usize) -> (result: Option<(ast::Param, usize)>)
        requires
            self.ready(),
        ensures
            match result {
                Some((param, next)) => parsed_param(self.input(), pos as int) == Some(
                    (unlinked_param(param), next as int),
                ) && pos < next <= self.tokens@.len(),
                None => parsed_param(self.input(), pos as int) is None,
            },
    {
        if self.is(pos, TokenKind::Name) && self.is(pos + 1, TokenKind::Colon) && self.is(
            pos + 2,
            TokenKind::Name,
        ) {
            Some((ast::Param { id: self.name(pos), tpe: self.tpe(pos + 2) }, pos + 3))
        } else {
            None
        }
    }

    fn parse_params(&self, pos: usize) -> (result: Option<(Vec<ast::Param>, usize)>)
        requires
            self.ready(),
            pos <= self.tokens@.len(),
        ensures
            match result {
                Some((params, next)) => parsed_params(self.input(), pos as int) == Some(
                    (unlinked_params(params@), next as int),
                ) && pos <= next <= self.tokens@.len(),
                None => parsed_params(self.input(), pos as int) is None,
            },
    {
        let mut params: Vec<ast::Param> = Vec::new();
        assert(unlinked_params(params@) =~= Seq::empty());
        if !self.is(pos, TokenKind::LeftParen) {
            return Some((params, pos));
        }
        if self.is(pos + 1, TokenKind::RightParen) {
            return Some((params, pos + 2));
        }
        let mut p: usize = match self.parse_param(pos + 1) {
            Some((param, next)) => {
                params.push(param);
                assert(unlinked_params(params@) =~= seq![unlinked_param(param)]);
                next
            },
            None => {
                return None;
            },
        };
        loop
            invariant
                self.ready(),
                pos < p <= self.tokens@.len(),
                parsed_params(self.input(), pos as int) == parsed_more_params(
                    self.input(),
                    p as int,
                    unlinked_params(params@),
                ),
            decreases self.tokens@.len() - p,
        {
            if self.is(p, TokenKind::RightParen) {
                return Some((params, p + 1));
            }
            if !self.is(p, TokenKind::Comma) {
                return None;
            }
            match self.parse_param(p + 1) {
                Some((param, next)) => {
                    let ghost read = params@;
                    params.push(param);
                    assert(unlinked_params(params@) =~= unlinked_params(read).push(
                        unlinked_param(param),
                    ));
                    p = next;
                },
                None => {
                    return None;
                },
            }
        }
    }

    fn parse_expr(&self, pos: usize) -> (result: Option<(ast::Expr, usize)>)
        requires
            self.ready(),
        ensures
            match result {
                Some((expr, next)) => parsed_expr(self.input(), pos as int) == Some(
                    (unlinked_expr(expr), next as int),
                ) && pos < next <= self.tokens@.len(),
                None => parsed_expr(self.input(), pos as int) is None,
            },
        decreases self.tokens@.len() - pos, 3int,
    {
        if self.is(pos, TokenKind::Name) && self.is(pos + 1, TokenKind::Assign) {
            match self.parse_expr(pos + 2) {
                Some((expr, next)) => Some(
                    (
                        ast::Expr::Assignment(
                            ast::Assignment {
                                var: ast::Var { id: self.name(pos) },
                                expr: Box::new(expr),
                            },
                        ),
                        next,
                    ),
                ),
                None => None,
            }
        } else {
            self.parse_call(pos)
        }
    }

    fn parse_call(&self, pos: usize) -> (result: Option<(ast::Expr, usize)>)
        requires
            self.ready(),
        ensures
            match result {
                Some((expr, next)) => parsed_call(self.input(), pos as int) == Some(
                    (unlinked_expr(expr), next as int),
                ) && pos < next <= self.tokens@.len(),
                None => parsed_call(self.input(), pos as int) is None,
            },
        decreases self.tokens@.len() - pos, 2int,
    {
        let (mut current, mut p) = match self.parse_primary(pos) {
            Some((primary, next)) => (primary, next),
            None => {
                return None;
            },
        };
        while self.is(p, TokenKind::Dot) && self.is(p + 1, TokenKind::Name)
            invariant
                self.ready(),
                pos < p <= self.tokens@.len(),
                parsed_call(self.input(), pos as int) == parsed_more_calls(
                    self.input(),
                    p as int,
                    unlinked_expr(current),
                ),
            decreases self.tokens@.len() - p,
        {
            match self.parse_args(p + 2) {
                Some((args, next)) => {
                    let receiver = current;
                    current =
                    ast::Expr::Invoke(
                        ast::Invoke {
                            invoker_opt: Some(Box::new(receiver)),
                            id: self.name(p + 1),
                            args,
                        },
                    );
                    p = next;
                },
                None => {
                    return None;
                },
            }
        }
        Some((current, p))
    }

    fn parse_primary(&self, pos: usize) -> (result: Option<(ast::Expr, usize)>)
        requires
            self.ready(),
        ensures
            match result {
                Some((expr, next)) => parsed_primary(self.input(), pos as int) == Some(
                    (unlinked_expr(expr), next as int),
                ) && pos < next <= self.tokens@.len(),
                None => parsed_primary(self.input(), pos as int) is None,
            },
        decreases self.tokens@.len() - pos, 1int,
    {
        if self.is(pos, TokenKind::Name) {
            if self.is(pos + 1, TokenKind::LeftParen) {
                match self.parse_args(pos + 1) {
                    Some((args, next)) => Some(
                        (
                            ast::Expr::Invoke(
                                ast::Invoke { invoker_opt: None, id: self.name(pos), args },
                            ),
                            next,
                        ),
                    ),
                    None => None,
                }
            } else {
                Some((ast::Expr::Var(ast::Var { id: self.name(pos) }), pos + 1))
            }
        } else if self.is(pos, TokenKind::Number) {
            match self.number(pos) {
                Some(value) => Some(
                    (
                        ast::Expr::Num(
                            ast::Num {
                                value,
                                line: self.tokens[pos].line,
                                col: self.tokens[pos].col,
                            },
                        ),
                        pos + 1,
                    ),
                ),
                None => None,
            }
        } else if self.is(pos, TokenKind::Text) {
            Some((ast::Expr::Str(ast::Str { text: self.name(pos) }), pos + 1))
        } else {
            None
        }
    }

    fn parse_args(&self, pos: usize) -> (result: Option<(Vec<ast::Expr>, usize)>)
        requires
            self.ready(),
        ensures
            match result {
                Some((args, next)) => parsed_args(self.input(), pos as int) == Some(
                    (unlinked_exprs(args@), next as int),
                ) && pos < next <= self.tokens@.len(),
                None => parsed_args(self.input(), pos as int) is None,
            },
        decreases self.tokens@.len() - pos, 0int,
    {
        if !self.is(pos, TokenKind::LeftParen) {
            return None;
        }
        let mut args: Vec<ast::Expr> = Vec::new();
        assert(unlinked_exprs(args@) =~= Seq::empty());
        if self.is(pos + 1, TokenKind::RightParen) {
            return Some((args, pos + 2));
        }
        let mut p: usize = match self.parse_expr(pos + 1) {
            Some((expr, next)) => {
                args.push(expr);
                assert(unlinked_exprs(args@) =~= seq![unlinked_expr(expr)]);
                next
            },
            None => {
                return None;
            },
        };
        loop
            invariant
                self.ready(),
                pos < p <= self.tokens@.len(),
                parsed_args(self.input(), pos as int) == parsed_more_args(
                    self.input(),
                    p as int,
                    unlinked_exprs(args@),
                ),
            decreases self.tokens@.len() - p,
        {
            if self.is(p, TokenKind::RightParen) {
                return Some((args, p + 1));
            }
            if !self.is(p, TokenKind::Comma) {
                return None;
            }
            match self.parse_expr(p + 1) {
                Some((expr, next)) => {
                    proof {
                        lemma_unlinked_exprs_push(args@, expr);
                    }
                    args.push(expr);
                    p = next;
                },
                None => {
                    return None;
                },
            }
        }
    }

    fn parse_body(&self, pos: usize) -> (result: Option<(Vec<ast::Expr>, usize)>)
        requires
            self.ready(),
            pos <= self.tokens@.len(),
        ensures
            match result {
                Some((exprs, next)) => parsed_body(self.input(), pos as int, Seq::empty()) == Some(
                    (unlinked_exprs(exprs@), next as int),
                ) && pos < next <= self.tokens@.len(),
                None => parsed_body(self.input(), pos as int, Seq::empty()) is None,
            },
    {
        let mut exprs: Vec<ast::Expr> = Vec::new();
        assert(unlinked_exprs(exprs@) =~= Seq::empty());
        let mut p: usize = pos;
        loop
            invariant
                self.ready(),
                pos <= p <= self.tokens@.len(),
                parsed_body(self.input(), pos as int, Seq::empty()) == parsed_body(
                    self.input(),
                    p as int,
                    unlinked_exprs(exprs@),
                ),
            decreases self.tokens@.len() - p,
        {
            if self.is(p, TokenKind::End) {
                return Some((exprs, p + 1));
            }
            match self.parse_expr(p) {
                Some((expr, next)) => {
                    proof {
                        lemma_unlinked_exprs_push(exprs@, expr);
                    }
                    exprs.push(expr);
                    p = next;
                },
                None => {
                    return None;
                },
            }
        }
    }

    fn parse_def(&self, pos: usize) -> (result: Option<(ast::Func, usize)>)
        requires
            self.ready(),
        ensures
            match result {
                Some((func, next)) => parsed_def(self.input(), pos as int) == Some(
                    (unlinked_func(func), next as int),
                ) && pos < next <= self.tokens@.len(),
                None => parsed_def(self.input(), pos as int) is None,
            },
    {
        if !(self.is(pos, TokenKind::Def) && self.is(pos + 1, TokenKind::Name)) {
            return None;
        }
        let (params, after) = match self.parse_params(pos + 2) {
            Some((params, after)) => (params, after),
            None => {
                return None;
            },
        };
        let typed = self.is(after, TokenKind::Colon) && self.is(after + 1, TokenKind::Name);
        let (return_type, start) = if typed {
            (self.tpe(after + 1), after + 2)
        } else {
            (ast::Type { id: None }, after)
        };
        match self.parse_body(start) {
            Some((exprs, next)) => Some(
                (ast::Func { id: self.name(pos + 1), params, return_type, exprs }, next),
            ),
            None => None,
        }
    }

    fn parse_methods(&self, pos: usize) -> (result: Option<(Vec<ast::Func>, usize)>)
        requires
            self.ready(),
            pos <= self.tokens@.len(),
        ensures
            match result {
                Some((methods, next)) => parsed_methods(self.input(), pos as int, Seq::empty())
                    == Some((unlinked_funcs(methods@), next as int)) && pos < next
                    <= self.tokens@.len(),
                None => parsed_methods(self.input(), pos as int, Seq::empty()) is None,
            },
    {
        let mut methods: Vec<ast::Func> = Vec::new();
        assert(unlinked_funcs(methods@) =~= Seq::empty());
        let mut p: usize = pos;
        loop
            invariant
                self.ready(),
                pos <= p <= self.tokens@.len(),
                parsed_methods(self.input(), pos as int, Seq::empty()) == parsed_methods(
                    self.input(),
                    p as int,
                    unlinked_funcs(methods@),
                ),
            decreases self.tokens@.len() - p,
        {
            if self.is(p, TokenKind::End) {
                return Some((methods, p + 1));
            }
            match self.parse_def(p) {
                Some((method, next)) => {
                    let ghost read = methods@;
                    methods.push(method);
                    assert(unlinked_funcs(methods@) =~= unlinked_funcs(read).push(
                        unlinked_func(method),
                    ));
                    p = next;
                },
                None => {
                    return None;
                },
            }
        }
    }

    fn parse_class(&self, pos: usize) -> (result: Option<(ast::Class, usize)>)
        requires
            self.ready(),
        ensures
            match result {
                Some((class, next)) => parsed_class(self.input(), pos as int) == Some(
                    (unlinked_class(class), next as int),
                ) && pos < next <= self.tokens@.len(),
                None => parsed_class(self.input(), pos as int) is None,
            },
    {
        if !(self.is(pos, TokenKind::Class) && self.is(pos + 1, TokenKind::Name)) {
            return None;
        }
        let (params, after) = match self.parse_params(pos + 2) {
            Some((params, after)) => (params, after),
            None => {
                return None;
            },
        };
        match self.parse_methods(after) {
            Some((methods, next)) => Some(
                (ast::Class { id: self.name(pos + 1), params, methods }, next),
            ),
            None => None,
        }
    }

    fn parse_item(&self, pos: usize) -> (result: Option<(ast::ModUnit, usize)>)
        requires
            self.ready(),
        ensures
            match result {
                Some((unit, next)) => parsed_item(self.input(), pos as int) == Some(
                    (unlinked_mod_unit(unit), next as int),
                ) && pos < next <= self.tokens@.len(),
                None => parsed_item(self.input(), pos as int) is None,
            },
    {
        if self.is(pos, TokenKind::Class) {
            match self.parse_class(pos) {
                Some((class, next)) => Some((ast::ModUnit::Class(class), next)),
                None => None,
            }
        } else {
            match self.parse_def(pos) {
                Some((func, next)) => Some((ast::ModUnit::Func(func), next)),
                None => None,
            }
        }
    }

    /// Reads the items of a unit: all of them, or the place of the token at
    /// which an item should start and none does.
    pub fn parse_items(&self) -> (result: Result<ast::Mod, usize>)
        requires
            self.ready(),
        ensures
            match result {
                Ok(m) => parsed_items(self.input(), 0, Seq::empty()) == Ok::<Seq<ItemView>, int>(
                    unlinked_mod(m),
                ),
                Err(at) => parsed_items(self.input(), 0, Seq::empty()) == Err::<
                    Seq<ItemView>,
                    int,
                >(at as int) && at < self.input().tokens.len(),
            },
    {
        let mut units: Vec<ast::ModUnit> = Vec::new();
        let ghost read = Seq::<ItemView>::empty();
        let mut p: usize = 0;
        while p < self.tokens.len()
            invariant
                self.ready(),
                p <= self.tokens@.len(),
                self.input().tokens == self.tokens@,
                read.len() == units@.len(),
                forall|i: int| 0 <= i < units@.len() ==> read[i] == unlinked_mod_unit(units@[i]),
                parsed_items(self.input(), 0, Seq::empty()) == parsed_items(
                    self.input(),
                    p as int,
                    read,
                ),
            decreases self.tokens@.len() - p,
        {
            match self.parse_item(p) {
                Some((unit, next)) => {
                    proof {
                        read = read.push(unlinked_mod_unit(unit));
                    }
                    units.push(unit);
                    p = next;
                },
                None => {
                    return Err(p);
                },
            }
        }
        let m = ast::Mod { units };
        assert(unlinked_mod(m) =~= read);
        Ok(m)
    }
}

} // verus!
