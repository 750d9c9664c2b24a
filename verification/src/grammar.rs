//! The grammar, as functions from a sequence of tokens and an index into it
//! to what the parser makes there.
//!
//! Expressions have three levels. The loosest joins operands with `%`, `*`
//! and `/`; its operands join values with `+` and `-`; a value is a literal,
//! a name, a call, a value behind `!` or `-`, or an expression between round
//! brackets. Both joining levels associate to the left.

use crate::error::{DiagnosticView, ErrorType};
use crate::parser::NodeView;
use crate::scanner::{debug_text, TokenView};
use vstd::prelude::*;

verus! {

/// The result of reading one construct at some index: the construct and the
/// index after it, or a message and the index of the token it is about.
pub enum Outcome<T> {
    Done { value: T, next: int },
    Failed { message: Seq<char>, at: int },
}

/// A message for the token at index `at`.
pub struct Notice {
    pub message: Seq<char>,
    pub at: int,
}

/// The level of the grammar that reads the operands of a binary expression.
#[derive(Debug, Clone, Copy, PartialEq, Eq, Structural)]
pub enum Builder {
    /// Operands are values.
    Unary,
    /// Operands are additive expressions.
    Additive,
}

/// The token at index `at`; past the last token, `End`.
pub open spec fn token_at(tokens: Seq<TokenView>, at: int) -> TokenView {
    if 0 <= at < tokens.len() {
        tokens[at]
    } else {
        TokenView::End
    }
}

/// How many tokens can still be read from index `at` on, the `End` after the
/// last among them; none past that. Every function of the grammar reads on
/// from a greater index or asks a function below it, so this is what their
/// recursion goes down by.
pub open spec fn remaining(tokens: Seq<TokenView>, at: int) -> nat {
    if at <= tokens.len() {
        (tokens.len() - at + 1) as nat
    } else {
        0
    }
}

/// How many newline tokens stand before index `at`: the line, counted from
/// zero, of the token at `at`.
pub open spec fn newlines_before(tokens: Seq<TokenView>, at: int) -> nat
    decreases at,
{
    if at <= 0 {
        0
    } else {
        newlines_before(tokens, at - 1) + if token_at(tokens, at - 1) == TokenView::OpNewline {
            1nat
        } else {
            0nat
        }
    }
}

/// The fatal diagnostic with this message for the token at index `at`.
pub open spec fn fatal_at(tokens: Seq<TokenView>, message: Seq<char>, at: int) -> DiagnosticView {
    DiagnosticView {
        message,
        line: newlines_before(tokens, at),
        column: 0,
        severity: ErrorType::Fatal,
    }
}

/// The warning that a notice stands for.
pub open spec fn warning_at(tokens: Seq<TokenView>, notice: Notice) -> DiagnosticView {
    DiagnosticView {
        message: notice.message,
        line: newlines_before(tokens, notice.at),
        column: 0,
        severity: ErrorType::Warning,
    }
}

/// The warnings that a sequence of notices stands for.
pub open spec fn warnings_at(tokens: Seq<TokenView>, notices: Seq<Notice>) -> Seq<DiagnosticView> {
    notices.map_values(|n: Notice| warning_at(tokens, n))
}

/// The message about a token that cannot stand where it does: `head`, the
/// token as diagnostics write it, `tail`.
pub open spec fn unexpected(head: Seq<char>, token: TokenView, tail: Seq<char>) -> Seq<char> {
    head + debug_text(token) + tail
}

/// The warning for a property marked `mut` in a declaration that is `mut`
/// as a whole.
pub open spec fn redundant_mut(name: Seq<char>) -> Seq<char> {
    "Warning: All destructured properties are mutable. `mut` before `"@ + name
        + "` is unnecessary."@
}

/// Whether a value may begin with this token where one follows `!` or `-`.
pub open spec fn begins_operand(token: TokenView) -> bool {
    token is BooleanLiteral || token is StringLiteral || token is NumberLiteral
        || token is Identifier || token is OpNot || token is OpSub
}

/// The operators that join values: `+` and `-`.
pub open spec fn additive_operators() -> Seq<TokenView> {
    seq![TokenView::OpAdd, TokenView::OpSub]
}

/// The operators that join additive expressions: `%`, `*` and `/`.
pub open spec fn multiplicative_operators() -> Seq<TokenView> {
    seq![TokenView::OpMod, TokenView::OpMul, TokenView::OpDiv]
}

/// Whether `outcome` is a construct that began at `at` and ends after it,
/// within the tokens. Every construct of the grammar holds a token, so this
/// holds of every `Done` that the functions below return
/// (`lemma_constructs_hold_tokens`).
pub open spec fn moved<T>(tokens: Seq<TokenView>, at: int, outcome: Outcome<T>) -> bool {
    outcome matches Outcome::Done { next, .. } && at < next <= tokens.len()
}

/// The place of a level of operands among the functions of the grammar: it
/// orders them so that each calls, at the same index, only functions of lower
/// place, which is why their recursion ends.
pub open spec fn operand_rank(builder: Builder) -> int {
    match builder {
        Builder::Unary => 1,
        Builder::Additive => 5,
    }
}

/// A value: a literal; a name, which is a call where `(` follows it; a value
/// behind `!` or `-`; or an expression between round brackets.
pub open spec fn parse_value(tokens: Seq<TokenView>, at: int) -> Outcome<NodeView>
    decreases remaining(tokens, at), 0int,
{
    match token_at(tokens, at) {
        TokenView::BooleanLiteral(b) => Outcome::Done { value: NodeView::Boolean(b), next: at + 1 },
        TokenView::NumberLiteral(n) => Outcome::Done { value: NodeView::Number(n), next: at + 1 },
        TokenView::StringLiteral(s) => Outcome::Done { value: NodeView::String(s), next: at + 1 },
        TokenView::Identifier(name) => if token_at(tokens, at + 1) == TokenView::ParenLeft {
            match parse_arguments(tokens, at + 2, Seq::empty()) {
                Outcome::Done { value: arguments, next } => Outcome::Done {
                    value: NodeView::FunctionCall { name, arguments },
                    next,
                },
                Outcome::Failed { message, at } => Outcome::Failed { message, at },
            }
        } else {
            Outcome::Done { value: NodeView::Identifier(name), next: at + 1 }
        },
        TokenView::OpNot => parse_prefixed(tokens, at, '!'),
        TokenView::OpSub => parse_prefixed(tokens, at, '-'),
        TokenView::ParenLeft => match parse_expression(tokens, at + 1) {
            Outcome::Done { value, next } => if token_at(tokens, next) == TokenView::ParenRight {
                Outcome::Done { value, next: next + 1 }
            } else {
                Outcome::Failed { message: "SyntaxError: Expected ')' after expression."@, at: next }
            },
            Outcome::Failed { message, at } => Outcome::Failed { message, at },
        },
        other => Outcome::Failed {
            message: unexpected(
                "SyntaxError: Unexpected token [4] `"@,
                other,
                "`. Expected value."@,
            ),
            at,
        },
    }
}

/// The value behind the prefix operator at index `at`. The token after the
/// operator has to be one that `begins_operand`.
pub open spec fn parse_prefixed(tokens: Seq<TokenView>, at: int, operation: char) -> Outcome<
    NodeView,
>
    decreases remaining(tokens, at + 1), 1int,
{
    let after = at + 1;
    if begins_operand(token_at(tokens, after)) {
        match parse_value(tokens, after) {
            Outcome::Done { value, next } => Outcome::Done {
                value: NodeView::Unary { left: Box::new(value), operation },
                next,
            },
            Outcome::Failed { message, at } => Outcome::Failed { message, at },
        }
    } else {
        Outcome::Failed {
            message: unexpected(
                if operation == '!' {
                    "SyntaxError: Unexpected token [2] `"@
                } else {
                    "SyntaxError: Unexpected token [3] `"@
                },
                token_at(tokens, after),
                "`. Expected value"@,
            ),
            at: after,
        }
    }
}

/// The arguments of a call, read from index `at` on and added to
/// `collected`: expressions up to the `)` that closes the call. Commas
/// between, before and after them are passed over.
pub open spec fn parse_arguments(
    tokens: Seq<TokenView>,
    at: int,
    collected: Seq<NodeView>,
) -> Outcome<Seq<NodeView>>
    decreases remaining(tokens, at), 20int,
{
    match token_at(tokens, at) {
        TokenView::ParenRight => Outcome::Done { value: collected, next: at + 1 },
        TokenView::OpComma => parse_arguments(tokens, at + 1, collected),
        _ => {
            let argument = parse_expression(tokens, at);
            match argument {
                Outcome::Done { value, next } => if moved(tokens, at, argument) {
                    parse_arguments(tokens, next, collected.push(value))
                } else {
                    Outcome::Done { value: collected.push(value), next }
                },
                Outcome::Failed { message, at } => Outcome::Failed { message, at },
            }
        },
    }
}

/// An operand of a binary expression at the level of `builder`.
pub open spec fn parse_operand(tokens: Seq<TokenView>, at: int, builder: Builder) -> Outcome<
    NodeView,
>
    decreases remaining(tokens, at), operand_rank(builder),
{
    match builder {
        Builder::Unary => parse_value(tokens, at),
        Builder::Additive => parse_additive(tokens, at),
    }
}

/// A binary expression: an operand, then operators from `operators`, each
/// with the operand after it, joined to the left.
pub open spec fn parse_binary(
    tokens: Seq<TokenView>,
    at: int,
    builder: Builder,
    operators: Seq<TokenView>,
) -> Outcome<NodeView>
    decreases remaining(tokens, at), operand_rank(builder) + 2,
{
    let first = parse_operand(tokens, at, builder);
    match first {
        Outcome::Done { value, next } => if moved(tokens, at, first) {
            parse_binary_tail(tokens, next, value, builder, operators)
        } else {
            first
        },
        Outcome::Failed { .. } => first,
    }
}

/// What follows the operand `left` of a binary expression, from index `at`
/// on: while an operator from `operators` stands there, the operand after it
/// is joined to what was read so far. The node keeps the operator's token.
pub open spec fn parse_binary_tail(
    tokens: Seq<TokenView>,
    at: int,
    left: NodeView,
    builder: Builder,
    operators: Seq<TokenView>,
) -> Outcome<NodeView>
    decreases remaining(tokens, at), operand_rank(builder) + 1,
{
    let operation = token_at(tokens, at);
    if operators.contains(operation) {
        let after = at + 1;
        let second = parse_operand(tokens, after, builder);
        match second {
            Outcome::Done { value: right, next } => if moved(tokens, after, second) {
                parse_binary_tail(
                    tokens,
                    next,
                    NodeView::Binary { left: Box::new(left), right: Box::new(right), operation },
                    builder,
                    operators,
                )
            } else {
                second
            },
            Outcome::Failed { .. } => second,
        }
    } else {
        Outcome::Done { value: left, next: at }
    }
}

/// Values joined by `+` and `-`.
pub open spec fn parse_additive(tokens: Seq<TokenView>, at: int) -> Outcome<NodeView>
    decreases remaining(tokens, at), 4int,
{
    parse_binary(tokens, at, Builder::Unary, additive_operators())
}

/// Additive expressions joined by `%`, `*` and `/`.
pub open spec fn parse_multiplicative(tokens: Seq<TokenView>, at: int) -> Outcome<NodeView>
    decreases remaining(tokens, at), 8int,
{
    parse_binary(tokens, at, Builder::Additive, multiplicative_operators())
}

/// An expression: the loosest level, the multiplicative one.
pub open spec fn parse_expression(tokens: Seq<TokenView>, at: int) -> Outcome<NodeView>
    decreases remaining(tokens, at), 9int,
{
    parse_multiplicative(tokens, at)
}

/// The properties of a destructuring declaration and the notices given
/// while they were read. A `Done` outcome holds the index of the `}` that
/// closes the list.
pub struct Properties {
    pub outcome: Outcome<Seq<(Seq<char>, bool)>>,
    pub notices: Seq<Notice>,
}

/// Whether a property of a destructuring declaration may begin with this
/// token: a name, or `mut`.
pub open spec fn begins_property(token: TokenView) -> bool {
    token is Identifier || token == TokenView::Keyword("mut"@)
}

/// The list of a destructuring declaration from index `at` on, where a
/// property is due: a name, or `mut` and a name. A property is mutable if
/// it is marked `mut` or the declaration is. Marking one in a declaration
/// that is `mut` gives a notice.
pub open spec fn parse_properties(
    tokens: Seq<TokenView>,
    at: int,
    mutable: bool,
    collected: Seq<(Seq<char>, bool)>,
    notices: Seq<Notice>,
) -> Properties
    decreases remaining(tokens, at), 0int,
{
    match token_at(tokens, at) {
        TokenView::Identifier(name) => parse_separator(
            tokens,
            at + 1,
            mutable,
            collected.push((name, mutable)),
            notices,
        ),
        TokenView::Keyword(word) => if word == "mut"@ {
            match token_at(tokens, at + 1) {
                TokenView::Identifier(name) => parse_separator(
                    tokens,
                    at + 2,
                    mutable,
                    collected.push((name, true)),
                    if mutable {
                        notices.push(Notice { message: redundant_mut(name), at: at + 1 })
                    } else {
                        notices
                    },
                ),
                _ => Properties {
                    outcome: Outcome::Failed {
                        message: "Expected identifier after `mut`."@,
                        at: at + 1,
                    },
                    notices,
                },
            }
        } else {
            Properties {
                outcome: Outcome::Failed { message: "Expected identifier or `mut`."@, at },
                notices,
            }
        },
        _ => Properties {
            outcome: Outcome::Failed { message: "Expected identifier or `mut`."@, at },
            notices,
        },
    }
}

/// What follows a property, at index `at`: the `}` that closes the list;
/// or the next property, which needs nothing between it and the one before;
/// or one token of another kind, a comma or any other, which is passed over
/// as a separator and has a property after it.
pub open spec fn parse_separator(
    tokens: Seq<TokenView>,
    at: int,
    mutable: bool,
    collected: Seq<(Seq<char>, bool)>,
    notices: Seq<Notice>,
) -> Properties
    decreases remaining(tokens, at), 1int,
{
    if token_at(tokens, at) == TokenView::CurlyRight {
        Properties { outcome: Outcome::Done { value: collected, next: at }, notices }
    } else if begins_property(token_at(tokens, at)) {
        parse_properties(tokens, at, mutable, collected, notices)
    } else if 0 <= at < tokens.len() {
        parse_properties(tokens, at + 1, mutable, collected, notices)
    } else {
        Properties {
            outcome: Outcome::Failed { message: "Expected identifier or `mut`."@, at },
            notices,
        }
    }
}

/// A statement, or the message that ends parsing, and the notices given on
/// the way.
pub struct Declared {
    pub outcome: Outcome<NodeView>,
    pub notices: Seq<Notice>,
}

/// An outcome that came without notices.
pub open spec fn quiet(outcome: Outcome<NodeView>) -> Declared {
    Declared { outcome, notices: Seq::empty() }
}

/// What follows the `}` at index `close` of a destructuring declaration:
/// `=` and one name, the value that is taken apart.
pub open spec fn parse_destructured_source(
    tokens: Seq<TokenView>,
    close: int,
    properties: Seq<(Seq<char>, bool)>,
    mutable: bool,
) -> Outcome<NodeView> {
    if token_at(tokens, close + 1) == TokenView::OpAssign {
        match token_at(tokens, close + 2) {
            TokenView::Identifier(source) => Outcome::Done {
                value: NodeView::VariableDestructureAssignment {
                    properties,
                    value: Box::new(NodeView::Identifier(source)),
                    mutable,
                },
                next: close + 3,
            },
            _ => Outcome::Failed {
                message: "SyntaxError: Destructured variable right hand side must be a single identifier"@,
                at: close + 2,
            },
        }
    } else {
        Outcome::Failed { message: "Expected assignment operator"@, at: close + 1 }
    }
}

/// A declaration whose `let` stands at index `at`: `let`, `mut` or not,
/// then a name, `=` and an expression, or a list of properties between
/// curly brackets, `=` and a name. A declaration marked `pub` has to be of
/// the first form: the node of the second has no place to say so.
pub open spec fn parse_declaration(tokens: Seq<TokenView>, at: int, public: bool) -> Declared {
    let after_let = at + 1;
    let mutable = token_at(tokens, after_let) == TokenView::Keyword("mut"@);
    let target = if mutable {
        after_let + 1
    } else {
        after_let
    };
    match token_at(tokens, target) {
        TokenView::Identifier(name) => quiet(
            if token_at(tokens, target + 1) == TokenView::OpAssign {
                match parse_expression(tokens, target + 2) {
                    Outcome::Done { value, next } => Outcome::Done {
                        value: NodeView::VariableAssignment {
                            name,
                            value: Box::new(value),
                            mutable,
                            public,
                        },
                        next,
                    },
                    Outcome::Failed { message, at } => Outcome::Failed { message, at },
                }
            } else {
                Outcome::Failed { message: "Expected assignment operator"@, at: target + 1 }
            },
        ),
        TokenView::CurlyLeft => if public {
            quiet(
                Outcome::Failed {
                    message: "SyntaxError: Expected identifier after `pub let`"@,
                    at: target,
                },
            )
        } else {
            let list = parse_properties(tokens, target + 1, mutable, Seq::empty(), Seq::empty());
            Declared {
                outcome: match list.outcome {
                    Outcome::Done { value: properties, next: close } => parse_destructured_source(
                        tokens,
                        close,
                        properties,
                        mutable,
                    ),
                    Outcome::Failed { message, at } => Outcome::Failed { message, at },
                },
                notices: list.notices,
            }
        },
        _ => quiet(
            Outcome::Failed {
                message: "SyntaxError: Expected identifier or `{` after `let`"@,
                at: target,
            },
        ),
    }
}

/// A statement at index `at`: a declaration, which `let` or `pub let`
/// begins, or an expression, which a literal, `!`, `-`, `(` or a built-in
/// function begins. Newline tokens before it are passed over.
pub open spec fn parse_statement(tokens: Seq<TokenView>, at: int) -> Declared
    decreases remaining(tokens, at),
{
    match token_at(tokens, at) {
        TokenView::Keyword(word) => if word == "let"@ {
            parse_declaration(tokens, at, false)
        } else if word == "pub"@ {
            if token_at(tokens, at + 1) == TokenView::Keyword("let"@) {
                parse_declaration(tokens, at + 1, true)
            } else {
                quiet(
                    Outcome::Failed { message: "SyntaxError: Expected `let` after `pub`"@, at: at + 1 },
                )
            }
        } else {
            quiet(
                Outcome::Failed {
                    message: unexpected(
                        "SyntaxError: Unexpected token [1] `"@,
                        TokenView::Keyword(word),
                        "`."@,
                    ),
                    at,
                },
            )
        },
        TokenView::NumberLiteral(_)
        | TokenView::StringLiteral(_)
        | TokenView::BooleanLiteral(_)
        | TokenView::OpNot
        | TokenView::OpSub
        | TokenView::ParenLeft
        | TokenView::BuiltinFn(_) => quiet(parse_expression(tokens, at)),
        TokenView::OpNewline => parse_statement(tokens, at + 1),
        other => quiet(
            Outcome::Failed {
                message: unexpected("SyntaxError: Unexpected token [1] `"@, other, "`."@),
                at,
            },
        ),
    }
}

/// What parsing a sequence of tokens from some index on gives.
pub struct Program {
    /// The statements read before parsing ended.
    pub nodes: Seq<NodeView>,
    /// The notices given, in the order in which they were given.
    pub notices: Seq<Notice>,
    /// The message that ended parsing, where a statement could not be
    /// read.
    pub failure: Option<Notice>,
    /// The index at which parsing ended.
    pub end: int,
}

/// Parsing from index `at` on: statement after statement, until `End` stands
/// where a statement would begin, or a statement cannot be read.
pub open spec fn parse_program(tokens: Seq<TokenView>, at: int) -> Program
    decreases remaining(tokens, at),
{
    if token_at(tokens, at) == TokenView::End {
        Program { nodes: Seq::empty(), notices: Seq::empty(), failure: None, end: at }
    } else {
        let first = parse_statement(tokens, at);
        match first.outcome {
            Outcome::Failed { message, at } => Program {
                nodes: Seq::empty(),
                notices: first.notices,
                failure: Some(Notice { message, at }),
                end: at,
            },
            Outcome::Done { value, next } => if moved(tokens, at, first.outcome) {
                let rest = parse_program(tokens, next);
                Program {
                    nodes: seq![value] + rest.nodes,
                    notices: first.notices + rest.notices,
                    failure: rest.failure,
                    end: rest.end,
                }
            } else {
                Program { nodes: seq![value], notices: first.notices, failure: None, end: next }
            },
        }
    }
}


/// Whether `outcome`, read at index `at`, stays within the tokens: a
/// construct ends after `at` and not past the last token, and a message is
/// about a token at or after `at`, or about the `End` that stands for what
/// is missing after the last token or after the one past it.
pub open spec fn within<T>(tokens: Seq<TokenView>, at: int, outcome: Outcome<T>) -> bool {
    match outcome {
        Outcome::Done { next, .. } => at < next <= tokens.len(),
        Outcome::Failed { at: place, .. } => at <= place <= tokens.len() + 1,
    }
}

/// `within` holds of a value. This and the lemmas below follow the
/// recursion of the grammar, one lemma for each of its functions.
proof fn lemma_value_within(tokens: Seq<TokenView>, at: int)
    requires
        0 <= at <= tokens.len(),
    ensures
        within(tokens, at, parse_value(tokens, at)),
    decreases remaining(tokens, at), 0int,
{
    match token_at(tokens, at) {
        TokenView::Identifier(_) => {
            if token_at(tokens, at + 1) == TokenView::ParenLeft {
                lemma_arguments_within(tokens, at + 2, Seq::empty());
            }
        },
        TokenView::OpNot => {
            lemma_prefixed_within(tokens, at, '!');
        },
        TokenView::OpSub => {
            lemma_prefixed_within(tokens, at, '-');
        },
        TokenView::ParenLeft => {
            lemma_expression_within(tokens, at + 1);
        },
        _ => {},
    }
}

/// `within` holds of a value behind a prefix operator.
proof fn lemma_prefixed_within(tokens: Seq<TokenView>, at: int, operation: char)
    requires
        0 <= at <= tokens.len(),
    ensures
        within(tokens, at, parse_prefixed(tokens, at, operation)),
    decreases remaining(tokens, at + 1), 1int,
{
    if begins_operand(token_at(tokens, at + 1)) {
        lemma_value_within(tokens, at + 1);
    }
}

/// `within` holds of the arguments of a call.
proof fn lemma_arguments_within(tokens: Seq<TokenView>, at: int, collected: Seq<NodeView>)
    requires
        0 <= at <= tokens.len(),
    ensures
        within(tokens, at, parse_arguments(tokens, at, collected)),
    decreases remaining(tokens, at), 20int,
{
    match token_at(tokens, at) {
        TokenView::ParenRight => {},
        TokenView::OpComma => {
            lemma_arguments_within(tokens, at + 1, collected);
        },
        _ => {
            lemma_expression_within(tokens, at);
            match parse_expression(tokens, at) {
                Outcome::Done { value, next } => {
                    lemma_arguments_within(tokens, next, collected.push(value));
                },
                Outcome::Failed { .. } => {},
            }
        },
    }
}

/// Past the last token no operand can be read: the message is about the
/// `End` that stands at the index itself.
proof fn lemma_nothing_past_the_end(tokens: Seq<TokenView>, at: int, builder: Builder)
    requires
        tokens.len() <= at,
    ensures
        parse_operand(tokens, at, builder) matches Outcome::Failed { at: place, .. } && place
            == at,
{
    assert(parse_value(tokens, at) matches Outcome::Failed { at: place, .. } && place == at);
    assert(parse_operand(tokens, at, Builder::Unary) == parse_value(tokens, at));
    assert(parse_binary(tokens, at, Builder::Unary, additive_operators()) == parse_value(
        tokens,
        at,
    ));
}

/// `within` holds of an operand.
proof fn lemma_operand_within(tokens: Seq<TokenView>, at: int, builder: Builder)
    requires
        0 <= at <= tokens.len(),
    ensures
        within(tokens, at, parse_operand(tokens, at, builder)),
    decreases remaining(tokens, at), operand_rank(builder),
{
    match builder {
        Builder::Unary => lemma_value_within(tokens, at),
        Builder::Additive => lemma_additive_within(tokens, at),
    }
}

/// `within` holds of a binary expression.
proof fn lemma_binary_within(
    tokens: Seq<TokenView>,
    at: int,
    builder: Builder,
    operators: Seq<TokenView>,
)
    requires
        0 <= at <= tokens.len(),
    ensures
        within(tokens, at, parse_binary(tokens, at, builder, operators)),
    decreases remaining(tokens, at), operand_rank(builder) + 2,
{
    lemma_operand_within(tokens, at, builder);
    match parse_operand(tokens, at, builder) {
        Outcome::Done { value, next } => {
            lemma_binary_tail_within(tokens, next, value, builder, operators);
        },
        Outcome::Failed { .. } => {},
    }
}

/// What follows the first operand of a binary expression ends at or after
/// the index at which it is read, within the tokens.
proof fn lemma_binary_tail_within(
    tokens: Seq<TokenView>,
    at: int,
    left: NodeView,
    builder: Builder,
    operators: Seq<TokenView>,
)
    requires
        0 <= at <= tokens.len(),
    ensures
        match parse_binary_tail(tokens, at, left, builder, operators) {
            Outcome::Done { next, .. } => at <= next <= tokens.len(),
            Outcome::Failed { at: place, .. } => at <= place <= tokens.len() + 1,
        },
    decreases remaining(tokens, at), operand_rank(builder) + 1,
{
    let operation = token_at(tokens, at);
    if operators.contains(operation) {
        let after = at + 1;
        if after <= tokens.len() {
            lemma_operand_within(tokens, after, builder);
        } else {
            lemma_nothing_past_the_end(tokens, after, builder);
        }
        match parse_operand(tokens, after, builder) {
            Outcome::Done { value: right, next } => {
                lemma_binary_tail_within(
                    tokens,
                    next,
                    NodeView::Binary { left: Box::new(left), right: Box::new(right), operation },
                    builder,
                    operators,
                );
            },
            Outcome::Failed { .. } => {},
        }
    }
}

/// `within` holds of an additive expression.
proof fn lemma_additive_within(tokens: Seq<TokenView>, at: int)
    requires
        0 <= at <= tokens.len(),
    ensures
        within(tokens, at, parse_additive(tokens, at)),
    decreases remaining(tokens, at), 4int,
{
    lemma_binary_within(tokens, at, Builder::Unary, additive_operators());
}

/// `within` holds of an expression.
proof fn lemma_expression_within(tokens: Seq<TokenView>, at: int)
    requires
        0 <= at <= tokens.len(),
    ensures
        within(tokens, at, parse_expression(tokens, at)),
    decreases remaining(tokens, at), 9int,
{
    lemma_binary_within(tokens, at, Builder::Additive, multiplicative_operators());
}

/// The list of a destructuring declaration closes after the index at which
/// it is read, on a token of the sequence.
proof fn lemma_properties_within(
    tokens: Seq<TokenView>,
    at: int,
    mutable: bool,
    collected: Seq<(Seq<char>, bool)>,
    notices: Seq<Notice>,
)
    requires
        0 <= at <= tokens.len(),
    ensures
        match parse_properties(tokens, at, mutable, collected, notices).outcome {
            Outcome::Done { next, .. } => at < next < tokens.len(),
            Outcome::Failed { at: place, .. } => at <= place <= tokens.len(),
        },
    decreases remaining(tokens, at), 0int,
{
    match token_at(tokens, at) {
        TokenView::Identifier(name) => {
            lemma_separator_within(tokens, at + 1, mutable, collected.push((name, mutable)), notices);
        },
        TokenView::Keyword(word) => {
            if word == "mut"@ {
                match token_at(tokens, at + 1) {
                    TokenView::Identifier(name) => {
                        lemma_separator_within(
                            tokens,
                            at + 2,
                            mutable,
                            collected.push((name, true)),
                            if mutable {
                                notices.push(Notice { message: redundant_mut(name), at: at + 1 })
                            } else {
                                notices
                            },
                        );
                    },
                    _ => {},
                }
            }
        },
        _ => {},
    }
}

/// What follows a property closes the list on a token of the sequence, at
/// or after the index at which it is read.
proof fn lemma_separator_within(
    tokens: Seq<TokenView>,
    at: int,
    mutable: bool,
    collected: Seq<(Seq<char>, bool)>,
    notices: Seq<Notice>,
)
    requires
        0 <= at <= tokens.len(),
    ensures
        match parse_separator(tokens, at, mutable, collected, notices).outcome {
            Outcome::Done { next, .. } => at <= next < tokens.len(),
            Outcome::Failed { at: place, .. } => at <= place <= tokens.len(),
        },
    decreases remaining(tokens, at), 1int,
{
    if token_at(tokens, at) == TokenView::CurlyRight {
    } else if begins_property(token_at(tokens, at)) {
        lemma_properties_within(tokens, at, mutable, collected, notices);
    } else if at < tokens.len() {
        lemma_properties_within(tokens, at + 1, mutable, collected, notices);
    }
}

/// `within` holds of a declaration.
proof fn lemma_declaration_within(tokens: Seq<TokenView>, at: int, public: bool)
    requires
        0 <= at <= tokens.len(),
    ensures
        within(tokens, at, parse_declaration(tokens, at, public).outcome),
{
    let after_let = at + 1;
    let mutable = token_at(tokens, after_let) == TokenView::Keyword("mut"@);
    let target = if mutable {
        after_let + 1
    } else {
        after_let
    };
    match token_at(tokens, target) {
        TokenView::Identifier(_) => {
            if token_at(tokens, target + 1) == TokenView::OpAssign {
                lemma_expression_within(tokens, target + 2);
            }
        },
        TokenView::CurlyLeft => {
            if !public {
                lemma_properties_within(
                    tokens,
                    target + 1,
                    mutable,
                    Seq::empty(),
                    Seq::empty(),
                );
            }
        },
        _ => {},
    }
}

/// `within` holds of a statement.
proof fn lemma_statement_within(tokens: Seq<TokenView>, at: int)
    requires
        0 <= at <= tokens.len(),
    ensures
        within(tokens, at, parse_statement(tokens, at).outcome),
    decreases remaining(tokens, at),
{
    match token_at(tokens, at) {
        TokenView::Keyword(word) => {
            if word == "let"@ {
                lemma_declaration_within(tokens, at, false);
            } else if word == "pub"@ {
                if token_at(tokens, at + 1) == TokenView::Keyword("let"@) {
                    lemma_declaration_within(tokens, at + 1, true);
                }
            }
        },
        TokenView::NumberLiteral(_)
        | TokenView::StringLiteral(_)
        | TokenView::BooleanLiteral(_)
        | TokenView::OpNot
        | TokenView::OpSub
        | TokenView::ParenLeft
        | TokenView::BuiltinFn(_) => {
            lemma_expression_within(tokens, at);
        },
        TokenView::OpNewline => {
            lemma_statement_within(tokens, at + 1);
        },
        _ => {},
    }
}

/// Every construct of the grammar holds at least one token and ends within
/// the tokens, and every message is about a token at or after the one at
/// which reading began. So wherever the functions of the grammar ask whether
/// an outcome `moved`, it did.
pub proof fn lemma_constructs_hold_tokens(tokens: Seq<TokenView>, at: int)
    requires
        0 <= at <= tokens.len(),
    ensures
        within(tokens, at, parse_value(tokens, at)),
        within(tokens, at, parse_additive(tokens, at)),
        within(tokens, at, parse_multiplicative(tokens, at)),
        within(tokens, at, parse_expression(tokens, at)),
        within(tokens, at, parse_statement(tokens, at).outcome),
        forall|public: bool| within(tokens, at, #[trigger] parse_declaration(tokens, at, public).outcome),
        forall|collected: Seq<NodeView>|
            within(tokens, at, #[trigger] parse_arguments(tokens, at, collected)),
        forall|builder: Builder|
            within(tokens, at, #[trigger] parse_operand(tokens, at, builder)),
        forall|builder: Builder, operators: Seq<TokenView>|
            within(tokens, at, #[trigger] parse_binary(tokens, at, builder, operators)),
{
    lemma_value_within(tokens, at);
    lemma_additive_within(tokens, at);
    lemma_expression_within(tokens, at);
    lemma_statement_within(tokens, at);
    assert forall|public: bool|
        within(tokens, at, #[trigger] parse_declaration(tokens, at, public).outcome) by {
        lemma_declaration_within(tokens, at, public);
    }
    assert forall|collected: Seq<NodeView>|
        within(tokens, at, #[trigger] parse_arguments(tokens, at, collected)) by {
        lemma_arguments_within(tokens, at, collected);
    }
    assert forall|builder: Builder|
        within(tokens, at, #[trigger] parse_operand(tokens, at, builder)) by {
        lemma_operand_within(tokens, at, builder);
    }
    assert forall|builder: Builder, operators: Seq<TokenView>|
        within(tokens, at, #[trigger] parse_binary(tokens, at, builder, operators)) by {
        lemma_binary_within(tokens, at, builder, operators);
    }
}

/// A binary expression, said without asking whether its first operand
/// `moved`.
pub open spec fn binary_unfolded(
    tokens: Seq<TokenView>,
    at: int,
    builder: Builder,
    operators: Seq<TokenView>,
) -> Outcome<NodeView> {
    match parse_operand(tokens, at, builder) {
        Outcome::Done { value, next } => parse_binary_tail(tokens, next, value, builder, operators),
        Outcome::Failed { message, at } => Outcome::Failed { message, at },
    }
}

/// One step along a chain of operators, said without asking whether the
/// operand `moved`: the operator at `at` joins what was read so far, on its
/// left, to the operand after it, and the chain goes on from there.
pub open spec fn binary_tail_unfolded(
    tokens: Seq<TokenView>,
    at: int,
    left: NodeView,
    builder: Builder,
    operators: Seq<TokenView>,
) -> Outcome<NodeView> {
    let operation = token_at(tokens, at);
    if operators.contains(operation) {
        match parse_operand(tokens, at + 1, builder) {
            Outcome::Done { value: right, next } => parse_binary_tail(
                tokens,
                next,
                NodeView::Binary { left: Box::new(left), right: Box::new(right), operation },
                builder,
                operators,
            ),
            Outcome::Failed { message, at } => Outcome::Failed { message, at },
        }
    } else {
        Outcome::Done { value: left, next: at }
    }
}

/// The arguments of a call, said without asking whether an argument
/// `moved`.
pub open spec fn arguments_unfolded(
    tokens: Seq<TokenView>,
    at: int,
    collected: Seq<NodeView>,
) -> Outcome<Seq<NodeView>> {
    match token_at(tokens, at) {
        TokenView::ParenRight => Outcome::Done { value: collected, next: at + 1 },
        TokenView::OpComma => parse_arguments(tokens, at + 1, collected),
        _ => match parse_expression(tokens, at) {
            Outcome::Done { value, next } => parse_arguments(tokens, next, collected.push(value)),
            Outcome::Failed { message, at } => Outcome::Failed { message, at },
        },
    }
}

/// A program, said without asking whether its first statement `moved`.
pub open spec fn program_unfolded(tokens: Seq<TokenView>, at: int) -> Program {
    if token_at(tokens, at) == TokenView::End {
        Program { nodes: Seq::empty(), notices: Seq::empty(), failure: None, end: at }
    } else {
        let first = parse_statement(tokens, at);
        match first.outcome {
            Outcome::Failed { message, at } => Program {
                nodes: Seq::empty(),
                notices: first.notices,
                failure: Some(Notice { message, at }),
                end: at,
            },
            Outcome::Done { value, next } => {
                let rest = parse_program(tokens, next);
                Program {
                    nodes: seq![value] + rest.nodes,
                    notices: first.notices + rest.notices,
                    failure: rest.failure,
                    end: rest.end,
                }
            },
        }
    }
}

/// Asking whether an outcome `moved` changes nothing: every function of the
/// grammar that asks is equal to itself without the question. So a binary
/// expression is its first operand and what follows it; each operator of a
/// chain joins all that stands to its left to the one operand on its right;
/// each argument of a call is added to those before it; and a program is its
/// first statement and the program after it.
pub proof fn lemma_grammar_unfolds(tokens: Seq<TokenView>, at: int)
    requires
        0 <= at <= tokens.len(),
    ensures
        forall|builder: Builder, operators: Seq<TokenView>| #[trigger]
            parse_binary(tokens, at, builder, operators) == binary_unfolded(
                tokens,
                at,
                builder,
                operators,
            ),
        forall|left: NodeView, builder: Builder, operators: Seq<TokenView>| #[trigger]
            parse_binary_tail(tokens, at, left, builder, operators) == binary_tail_unfolded(
                tokens,
                at,
                left,
                builder,
                operators,
            ),
        forall|collected: Seq<NodeView>| #[trigger]
            parse_arguments(tokens, at, collected) == arguments_unfolded(tokens, at, collected),
        parse_program(tokens, at) == program_unfolded(tokens, at),
{
    assert forall|builder: Builder, operators: Seq<TokenView>| #[trigger]
        parse_binary(tokens, at, builder, operators) == binary_unfolded(
            tokens,
            at,
            builder,
            operators,
        ) by {
        lemma_operand_within(tokens, at, builder);
    }
    assert forall|left: NodeView, builder: Builder, operators: Seq<TokenView>| #[trigger]
        parse_binary_tail(tokens, at, left, builder, operators) == binary_tail_unfolded(
            tokens,
            at,
            left,
            builder,
            operators,
        ) by {
        if at + 1 <= tokens.len() {
            lemma_operand_within(tokens, at + 1, builder);
        } else {
            lemma_nothing_past_the_end(tokens, at + 1, builder);
        }
    }
    assert forall|collected: Seq<NodeView>| #[trigger]
        parse_arguments(tokens, at, collected) == arguments_unfolded(tokens, at, collected) by {
        lemma_expression_within(tokens, at);
    }
    lemma_statement_within(tokens, at);
}

/// A value behind a prefix operator is a `Unary` node that keeps the
/// operator: `'!'` for `!`, `'-'` for `-`.
pub proof fn lemma_prefix_keeps_its_operator(tokens: Seq<TokenView>, at: int)
    ensures
        parse_prefixed(tokens, at, '!') matches Outcome::Done { value, .. } ==> value
            is Unary && value->Unary_operation == '!',
        parse_prefixed(tokens, at, '-') matches Outcome::Done { value, .. } ==> value
            is Unary && value->Unary_operation == '-',
        token_at(tokens, at) == TokenView::OpNot ==> parse_value(tokens, at) == parse_prefixed(
            tokens,
            at,
            '!',
        ),
        token_at(tokens, at) == TokenView::OpSub ==> parse_value(tokens, at) == parse_prefixed(
            tokens,
            at,
            '-',
        ),
{
}

/// Parsing ends within the tokens, and a program that could be read in full
/// ends where `End` stands.
pub proof fn lemma_program_ends(tokens: Seq<TokenView>, at: int)
    requires
        0 <= at <= tokens.len(),
    ensures
        at <= parse_program(tokens, at).end <= tokens.len() + 1,
        parse_program(tokens, at).failure is None ==> token_at(
            tokens,
            parse_program(tokens, at).end,
        ) == TokenView::End,
        parse_program(tokens, at).failure matches Some(notice) ==> notice.at == parse_program(
            tokens,
            at,
        ).end,
    decreases remaining(tokens, at),
{
    if token_at(tokens, at) != TokenView::End {
        lemma_statement_within(tokens, at);
        match parse_statement(tokens, at).outcome {
            Outcome::Done { next, .. } => {
                lemma_program_ends(tokens, next);
            },
            Outcome::Failed { .. } => {},
        }
    }
}

} // verus!
