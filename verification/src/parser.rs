//! The parser: tokens in, syntax trees out.

use crate::error::{
    diagnostic_views, report, report_layout, report_painted, Diagnostic, ErrorType,
};
use crate::grammar::{
    additive_operators, fatal_at, multiplicative_operators, newlines_before, operand_rank,
    parse_additive, parse_arguments, parse_binary, parse_binary_tail, parse_declaration,
    parse_expression, parse_multiplicative, parse_operand, parse_prefixed, parse_program,
    parse_properties, parse_statement, parse_value, redundant_mut, remaining, token_at, unexpected,
    warning_at, warnings_at, begins_property, Builder, Declared, Notice, Outcome,
};
use crate::scanner::{
    lemma_lexeme_advances, lexeme_at, scan_from, token_views, Token, TokenView,
};
use crate::text::{
    lemma_line_count, lemma_newline_count_falls, lines_of, newline_count, push_text, same_text,
    split_lines, text_views,
};
use vstd::prelude::*;

verus! {

/// The types that a value of the language can have.
pub enum Type {
    String,
    Number,
    Float,
    Boolean,
    Custom(String),
}

/// One syntactic construct. A node owns the nodes below it.
#[derive(Debug, PartialEq)]
#[allow(inconsistent_fields)]
pub enum Node {
    String(String),
    Number(i64),
    /// A floating-point literal, held as the bits of its binary64 form.
    Float(u64),
    Boolean(bool),
    Identifier(String),
    VariableAssignment { name: String, value: Box<Node>, mutable: bool, public: bool },
    VariableDestructureAssignment {
        /// Each property with whether it is mutable.
        properties: Vec<(String, bool)>,
        /// The value that is taken apart: always an `Identifier`.
        value: Box<Node>,
        mutable: bool,
    },
    Binary { left: Box<Node>, right: Box<Node>, operation: Token },
    Unary { left: Box<Node>, operation: char },
    FunctionCall { name: String, arguments: Vec<Node> },
    ImportStatement { names: Vec<String>, module: String },
}

/// What a node is, with texts as sequences of characters.
#[allow(inconsistent_fields)]
pub enum NodeView {
    String(Seq<char>),
    Number(i64),
    Float(u64),
    Boolean(bool),
    Identifier(Seq<char>),
    VariableAssignment { name: Seq<char>, value: Box<NodeView>, mutable: bool, public: bool },
    VariableDestructureAssignment {
        properties: Seq<(Seq<char>, bool)>,
        value: Box<NodeView>,
        mutable: bool,
    },
    Binary { left: Box<NodeView>, right: Box<NodeView>, operation: TokenView },
    Unary { left: Box<NodeView>, operation: char },
    FunctionCall { name: Seq<char>, arguments: Seq<NodeView> },
    ImportStatement { names: Seq<Seq<char>>, module: Seq<char> },
}

/// The views of the properties of a destructuring declaration.
pub open spec fn property_views(properties: Seq<(String, bool)>) -> Seq<(Seq<char>, bool)> {
    properties.map_values(|p: (String, bool)| (p.0@, p.1))
}

impl Node {
    /// What this node is: the tree of the same shape over sequences of
    /// characters.
    pub open spec fn model(&self) -> NodeView
        decreases self,
    {
        match self {
            Node::String(s) => NodeView::String(s@),
            Node::Number(n) => NodeView::Number(*n),
            Node::Float(bits) => NodeView::Float(*bits),
            Node::Boolean(b) => NodeView::Boolean(*b),
            Node::Identifier(name) => NodeView::Identifier(name@),
            Node::VariableAssignment { name, value, mutable, public } => NodeView::VariableAssignment {
                name: name@,
                value: Box::new(value.model()),
                mutable: *mutable,
                public: *public,
            },
            Node::VariableDestructureAssignment {
                properties,
                value,
                mutable,
            } => NodeView::VariableDestructureAssignment {
                properties: property_views(properties@),
                value: Box::new(value.model()),
                mutable: *mutable,
            },
            Node::Binary { left, right, operation } => NodeView::Binary {
                left: Box::new(left.model()),
                right: Box::new(right.model()),
                operation: operation@,
            },
            Node::Unary { left, operation } => NodeView::Unary {
                left: Box::new(left.model()),
                operation: *operation,
            },
            Node::FunctionCall { name, arguments } => NodeView::FunctionCall {
                name: name@,
                arguments: Seq::new(
                    arguments@.len(),
                    |i: int|
                        if 0 <= i < arguments@.len() {
                            arguments@[i].model()
                        } else {
                            NodeView::Boolean(false)
                        },
                ),
            },
            Node::ImportStatement { names, module } => NodeView::ImportStatement {
                names: text_views(names@),
                module: module@,
            },
        }
    }
}

impl Node {
    /// A copy of this node and of all the nodes below it.
    pub fn duplicate(&self) -> (copy: Node)
        ensures
            copy@ == self@,
        decreases self,
    {
        match self {
            Node::String(s) => Node::String(s.clone()),
            Node::Number(n) => Node::Number(*n),
            Node::Float(bits) => Node::Float(*bits),
            Node::Boolean(b) => Node::Boolean(*b),
            Node::Identifier(name) => Node::Identifier(name.clone()),
            Node::VariableAssignment { name, value, mutable, public } => Node::VariableAssignment {
                name: name.clone(),
                value: Box::new(value.duplicate()),
                mutable: *mutable,
                public: *public,
            },
            Node::VariableDestructureAssignment { properties, value, mutable } => {
                let mut copies: Vec<(String, bool)> = Vec::new();
                let mut i: usize = 0;
                while i < properties.len()
                    invariant
                        i <= properties.len(),
                        copies@.len() == i,
                        forall|j: int|
                            0 <= j < i ==> (#[trigger] copies@[j]).0@ == properties@[j].0@
                                && copies@[j].1 == properties@[j].1,
                    decreases properties.len() - i,
                {
                    copies.push((properties[i].0.clone(), properties[i].1));
                    i += 1;
                }
                assert(property_views(copies@) =~= property_views(properties@));
                Node::VariableDestructureAssignment {
                    properties: copies,
                    value: Box::new(value.duplicate()),
                    mutable: *mutable,
                }
            },
            Node::Binary { left, right, operation } => Node::Binary {
                left: Box::new(left.duplicate()),
                right: Box::new(right.duplicate()),
                operation: operation.clone(),
            },
            Node::Unary { left, operation } => Node::Unary {
                left: Box::new(left.duplicate()),
                operation: *operation,
            },
            Node::FunctionCall { name, arguments } => {
                let mut copies: Vec<Node> = Vec::new();
                let mut i: usize = 0;
                while i < arguments.len()
                    invariant
                        i <= arguments.len(),
                        copies@.len() == i,
                        *self is FunctionCall,
                        self->arguments == *arguments,
                        forall|j: int| 0 <= j < i ==> (#[trigger] copies@[j]).model() == arguments@[j].model(),
                    decreases arguments.len() - i,
                {
                    assert(decreases_to!(self => arguments@[i as int]));
                    copies.push(arguments[i].duplicate());
                    i += 1;
                }
                let copy = Node::FunctionCall { name: name.clone(), arguments: copies };
                assert(copy@->FunctionCall_arguments =~= self@->FunctionCall_arguments);
                copy
            },
            Node::ImportStatement { names, module } => {
                let mut copies: Vec<String> = Vec::new();
                let mut i: usize = 0;
                while i < names.len()
                    invariant
                        i <= names.len(),
                        copies@.len() == i,
                        forall|j: int| 0 <= j < i ==> (#[trigger] copies@[j])@ == names@[j]@,
                    decreases names.len() - i,
                {
                    copies.push(names[i].clone());
                    i += 1;
                }
                assert(text_views(copies@) =~= text_views(names@));
                Node::ImportStatement { names: copies, module: module.clone() }
            },
        }
    }
}

impl Clone for Node {
    fn clone(&self) -> (copy: Node)
        ensures
            copy@ == self@,
    {
        self.duplicate()
    }
}

impl View for Node {
    type V = NodeView;

    open spec fn view(&self) -> NodeView {
        self.model()
    }
}

/// The views of a sequence of nodes, in order.
pub open spec fn node_views(nodes: Seq<Node>) -> Seq<NodeView> {
    nodes.map_values(|n: Node| n@)
}


/// The message about a token that cannot stand where it does.
pub fn unexpected_message(head: &str, token: &Token, tail: &str) -> (message: String)
    ensures
        message@ == unexpected(head@, token@, tail@),
{
    let mut message = String::new();
    push_text(&mut message, head);
    token.push_debug(&mut message);
    push_text(&mut message, tail);
    assert(message@ =~= unexpected(head@, token@, tail@));
    message
}

/// The line count never runs ahead of the tokens.
pub proof fn lemma_newlines_bounded(tokens: Seq<TokenView>, at: int)
    requires
        0 <= at,
    ensures
        newlines_before(tokens, at) <= at,
    decreases at,
{
    if at > 0 {
        lemma_newlines_bounded(tokens, at - 1);
    }
}

/// A sequence of tokens with a cursor into it, the text they were scanned
/// from, the statements parsed so far, and the warnings given on the way.
pub struct Parser {
    pub tokens: Vec<Token>,
    /// The index of the token under the cursor.
    pub current: usize,
    pub source: String,
    /// The line, counted from zero, of the token under the cursor.
    pub current_line: usize,
    pub ast: Vec<Node>,
    /// How many warnings were given.
    pub warnings: usize,
    /// The warnings given, in order.
    pub reports: Vec<Diagnostic>,
}

impl Parser {
    /// The tokens that this parser reads.
    pub open spec fn input(&self) -> Seq<TokenView> {
        token_views(self.tokens@)
    }

    /// The line is that of the token under the cursor, and every warning is
    /// counted. The cursor may stand past the last token: `End` is what is
    /// read there.
    pub open spec fn wf(&self) -> bool {
        &&& self.current_line == newlines_before(self.input(), self.current as int)
        &&& self.warnings == self.reports.len()
    }

    /// `self` is `before` after some tokens were read: the tokens, the
    /// source and the statements are the same, and the cursor did not move
    /// back.
    pub open spec fn follows(&self, before: Parser) -> bool {
        &&& self.wf()
        &&& self.tokens == before.tokens
        &&& self.source == before.source
        &&& self.ast == before.ast
        &&& before.current <= self.current
    }

    /// `self` is `before` after some tokens were read without a warning.
    pub open spec fn reads_on(&self, before: Parser) -> bool {
        &&& self.follows(before)
        &&& self.warnings == before.warnings
        &&& self.reports == before.reports
    }

    /// `self` is `before` after some tokens were read with these notices as
    /// warnings.
    pub open spec fn warned(&self, before: Parser, notices: Seq<Notice>) -> bool {
        &&& self.follows(before)
        &&& diagnostic_views(self.reports@) == diagnostic_views(before.reports@) + warnings_at(
            self.input(),
            notices,
        )
    }

    /// `result` is what the grammar's `outcome` asks for, and the cursor
    /// rests where it says: after the construct, or on the token that the
    /// message is about.
    pub open spec fn settles(
        &self,
        before: Parser,
        result: Result<Node, Diagnostic>,
        outcome: Outcome<NodeView>,
    ) -> bool {
        match outcome {
            Outcome::Done { value, next } => {
                &&& result matches Ok(node)
                &&& node@ == value
                &&& self.current == next
                &&& before.current < next <= self.tokens.len()
            },
            Outcome::Failed { message, at } => {
                &&& result matches Err(diagnostic)
                &&& diagnostic@ == fatal_at(self.input(), message, at)
                &&& self.current == at
            },
        }
    }

    /// What a function that reads an expression promises.
    pub open spec fn yields(
        &self,
        before: Parser,
        result: Result<Node, Diagnostic>,
        outcome: Outcome<NodeView>,
    ) -> bool {
        self.reads_on(before) && self.settles(before, result, outcome)
    }

    /// What a function that reads a statement promises.
    pub open spec fn declares(
        &self,
        before: Parser,
        result: Result<Node, Diagnostic>,
        declared: Declared,
    ) -> bool {
        self.warned(before, declared.notices) && self.settles(before, result, declared.outcome)
    }

    /// A parser at the first of `tokens`, which were scanned from `source`.
    pub fn new(tokens: Vec<Token>, source: String) -> (parser: Parser)
        ensures
            parser.wf(),
            parser.tokens == tokens,
            parser.source == source,
            parser.current == 0,
            parser.ast@.len() == 0,
            parser.warnings == 0,
            parser.reports@.len() == 0,
    {
        Parser {
            tokens,
            current: 0,
            source,
            current_line: 0,
            ast: Vec::new(),
            warnings: 0,
            reports: Vec::new(),
        }
    }

    /// The token under the cursor; `End` once the tokens are used up.
    pub fn get_current(&self) -> (token: Token)
        ensures
            token@ == token_at(self.input(), self.current as int),
            token@ != TokenView::End ==> self.current < self.tokens.len(),
    {
        if self.current < self.tokens.len() {
            self.tokens[self.current].clone()
        } else {
            Token::End
        }
    }

    /// Whether the token under the cursor is `token`.
    pub fn current_is(&self, token: &Token) -> (same: bool)
        ensures
            same == (token_at(self.input(), self.current as int) == token@),
            same && token@ != TokenView::End ==> self.current < self.tokens.len(),
    {
        if self.current < self.tokens.len() {
            self.tokens[self.current] == *token
        } else {
            match token {
                Token::End => true,
                _ => false,
            }
        }
    }

    /// Whether the token under the cursor is one of `operators`.
    pub fn current_in(&self, operators: &Vec<Token>) -> (found: bool)
        ensures
            found == token_views(operators@).contains(token_at(self.input(), self.current as int)),
            found && token_at(self.input(), self.current as int) != TokenView::End
                ==> self.current < self.tokens.len(),
    {
        let ghost wanted = token_at(self.input(), self.current as int);
        let mut i: usize = 0;
        while i < operators.len()
            invariant
                i <= operators.len(),
                wanted == token_at(self.input(), self.current as int),
                forall|j: int| 0 <= j < i ==> token_views(operators@)[j] != wanted,
            decreases operators.len() - i,
        {
            if self.current_is(&operators[i]) {
                assert(token_views(operators@)[i as int] == wanted);
                return true;
            }
            i += 1;
        }
        false
    }

    /// Whether the tokens are used up, or `End` stands under the cursor.
    pub fn is_at_end(&self) -> (ended: bool)
        ensures
            ended == (token_at(self.input(), self.current as int) == TokenView::End),
    {
        self.current_is(&Token::End)
    }

    /// Moves the cursor one token on and gives the token then under it,
    /// `End` once the cursor is past the last token. The line goes up by one
    /// if the token that is left is a newline.
    pub fn advance(&mut self) -> (token: Token)
        requires
            old(self).wf(),
            old(self).current < usize::MAX,
        ensures
            final(self).reads_on(*old(self)),
            final(self).current == old(self).current + 1,
            token@ == token_at(final(self).input(), final(self).current as int),
            token@ != TokenView::End ==> final(self).current < final(self).tokens.len(),
    {
        proof {
            lemma_newlines_bounded(self.input(), self.current as int);
        }
        if self.current_is(&Token::OpNewline) {
            self.current_line += 1;
        }
        self.current += 1;
        self.get_current()
    }

    /// Moves to the next token, which has to be `token`: if it is not, the
    /// fatal diagnostic with the message `error` comes back.
    pub fn expect(&mut self, token: Token, error: &str) -> (result: Result<(), Diagnostic>)
        requires
            old(self).wf(),
            old(self).current < usize::MAX,
        ensures
            final(self).reads_on(*old(self)),
            final(self).current == old(self).current + 1,
            match result {
                Ok(_) => token_at(final(self).input(), final(self).current as int) == token@,
                Err(diagnostic) => {
                    &&& token_at(final(self).input(), final(self).current as int) != token@
                    &&& diagnostic@ == fatal_at(
                        final(self).input(),
                        error@,
                        final(self).current as int,
                    )
                },
            },
    {
        self.advance();
        if self.current_is(&token) {
            Ok(())
        } else {
            Err(self.error(error))
        }
    }

    /// The fatal diagnostic with this message for the token under the
    /// cursor.
    pub fn error(&self, error: &str) -> (diagnostic: Diagnostic)
        requires
            self.wf(),
        ensures
            diagnostic@ == fatal_at(self.input(), error@, self.current as int),
    {
        Diagnostic {
            message: error.to_owned(),
            line: self.current_line,
            column: 0,
            severity: ErrorType::Fatal,
        }
    }

    /// Gives a warning with this message for the token under the cursor.
    pub fn warn(&mut self, warning: &str)
        requires
            old(self).wf(),
        ensures
            final(self).follows(*old(self)),
            final(self).current == old(self).current,
            final(self).reports@.len() == old(self).reports@.len() + 1,
            diagnostic_views(final(self).reports@) == diagnostic_views(old(self).reports@).push(
                warning_at(
                    old(self).input(),
                    Notice { message: warning@, at: old(self).current as int },
                ),
            ),
    {
        let diagnostic = Diagnostic {
            message: warning.to_owned(),
            line: self.current_line,
            column: 0,
            severity: ErrorType::Warning,
        };
        let ghost held = self.reports@;
        self.reports.push(diagnostic);
        self.warnings = self.reports.len();
        assert(diagnostic_views(held.push(diagnostic)) =~= diagnostic_views(held).push(diagnostic@));
    }

    /// Reads a value.
    pub fn value(&mut self) -> (result: Result<Node, Diagnostic>)
        requires
            old(self).wf(),
        ensures
            final(self).yields(
                *old(self),
                result,
                parse_value(old(self).input(), old(self).current as int),
            ),
        decreases remaining(old(self).input(), old(self).current as int), 0int,
    {
        let token = self.get_current();
        match token {
            Token::BooleanLiteral(b) => {
                self.advance();
                Ok(Node::Boolean(b))
            },
            Token::NumberLiteral(n) => {
                self.advance();
                Ok(Node::Number(n))
            },
            Token::StringLiteral(s) => {
                self.advance();
                Ok(Node::String(s))
            },
            Token::Identifier(name) => {
                self.advance();
                if self.current_is(&Token::ParenLeft) {
                    self.advance();
                    match self.arguments() {
                        Ok(arguments) => {
                            let node = Node::FunctionCall { name, arguments };
                            assert(node@->arguments =~= node_views(arguments@));
                            Ok(node)
                        },
                        Err(diagnostic) => Err(diagnostic),
                    }
                } else {
                    Ok(Node::Identifier(name))
                }
            },
            Token::OpNot => self.prefixed('!'),
            Token::OpSub => self.prefixed('-'),
            Token::ParenLeft => {
                self.advance();
                match self.expression() {
                    Ok(node) => {
                        if self.current_is(&Token::ParenRight) {
                            self.advance();
                            Ok(node)
                        } else {
                            Err(self.error("SyntaxError: Expected ')' after expression."))
                        }
                    },
                    Err(diagnostic) => Err(diagnostic),
                }
            },
            other => {
                let message = unexpected_message(
                    "SyntaxError: Unexpected token [4] `",
                    &other,
                    "`. Expected value.",
                );
                Err(self.error(message.as_str()))
            },
        }
    }

    /// Reads the value behind the prefix operator under the cursor, which
    /// `operation` names.
    pub fn prefixed(&mut self, operation: char) -> (result: Result<Node, Diagnostic>)
        requires
            old(self).wf(),
            old(self).current < usize::MAX,
        ensures
            final(self).yields(
                *old(self),
                result,
                parse_prefixed(old(self).input(), old(self).current as int, operation),
            ),
        decreases remaining(old(self).input(), old(self).current + 1), 1int,
    {
        let next = self.advance();
        match next {
            Token::BooleanLiteral(_)
            | Token::StringLiteral(_)
            | Token::NumberLiteral(_)
            | Token::Identifier(_)
            | Token::OpNot
            | Token::OpSub => {
                match self.value() {
                    Ok(value) => Ok(Node::Unary { left: Box::new(value), operation }),
                    Err(diagnostic) => Err(diagnostic),
                }
            },
            other => {
                let message = unexpected_message(
                    if operation == '!' {
                        "SyntaxError: Unexpected token [2] `"
                    } else {
                        "SyntaxError: Unexpected token [3] `"
                    },
                    &other,
                    "`. Expected value",
                );
                Err(self.error(message.as_str()))
            },
        }
    }

    /// Reads the arguments of a call, from the token after its `(` to the
    /// `)` that closes it.
    pub fn arguments(&mut self) -> (result: Result<Vec<Node>, Diagnostic>)
        requires
            old(self).wf(),
        ensures
            final(self).reads_on(*old(self)),
            match parse_arguments(old(self).input(), old(self).current as int, Seq::empty()) {
                Outcome::Done { value, next } => {
                    &&& result matches Ok(nodes)
                    &&& node_views(nodes@) == value
                    &&& final(self).current == next
                    &&& old(self).current < next <= final(self).tokens.len()
                },
                Outcome::Failed { message, at } => {
                    &&& result matches Err(diagnostic)
                    &&& diagnostic@ == fatal_at(final(self).input(), message, at)
                    &&& final(self).current == at
                },
            },
        decreases remaining(old(self).input(), old(self).current as int), 20int,
    {
        let mut collected: Vec<Node> = Vec::new();
        assert(node_views(collected@) =~= Seq::<NodeView>::empty());
        loop
            invariant
                self.reads_on(*old(self)),
                old(self).current <= self.current,
                parse_arguments(old(self).input(), old(self).current as int, Seq::empty())
                    == parse_arguments(self.input(), self.current as int, node_views(collected@)),
            decreases remaining(self.input(), self.current as int),
        {
            if self.current_is(&Token::ParenRight) {
                self.advance();
                return Ok(collected);
            } else if self.current_is(&Token::OpComma) {
                self.advance();
            } else {
                match self.expression() {
                    Ok(node) => {
                        assert(node_views(collected@.push(node)) =~= node_views(collected@).push(
                            node@,
                        ));
                        collected.push(node);
                    },
                    Err(diagnostic) => {
                        return Err(diagnostic);
                    },
                }
            }
        }
    }

    /// Reads an operand at the level of `builder`.
    pub fn from_builder(&mut self, builder: Builder) -> (result: Result<Node, Diagnostic>)
        requires
            old(self).wf(),
        ensures
            final(self).yields(
                *old(self),
                result,
                parse_operand(old(self).input(), old(self).current as int, builder),
            ),
        decreases remaining(old(self).input(), old(self).current as int), operand_rank(builder),
    {
        match builder {
            Builder::Unary => self.value(),
            Builder::Additive => self.additive_expression(),
        }
    }

    /// Reads a binary expression whose operands `builder` reads and whose
    /// operators are `operators`. Where `End` is among the operators, the
    /// cursor steps past the last token, so the index after it has to exist.
    pub fn binary_expression(&mut self, builder: Builder, operators: &Vec<Token>) -> (result: Result<
        Node,
        Diagnostic,
    >)
        requires
            old(self).wf(),
            token_views(operators@).contains(TokenView::End) ==> old(self).tokens.len()
                < usize::MAX,
        ensures
            final(self).yields(
                *old(self),
                result,
                parse_binary(
                    old(self).input(),
                    old(self).current as int,
                    builder,
                    token_views(operators@),
                ),
            ),
        decreases remaining(old(self).input(), old(self).current as int), operand_rank(builder) + 2,
    {
        let mut left = match self.from_builder(builder) {
            Ok(node) => node,
            Err(diagnostic) => {
                return Err(diagnostic);
            },
        };
        while self.current_in(operators)
            invariant
                self.reads_on(*old(self)),
                old(self).current < self.current <= self.tokens.len(),
                token_views(operators@).contains(TokenView::End) ==> self.tokens.len()
                    < usize::MAX,
                parse_binary(
                    old(self).input(),
                    old(self).current as int,
                    builder,
                    token_views(operators@),
                ) == parse_binary_tail(
                    self.input(),
                    self.current as int,
                    left@,
                    builder,
                    token_views(operators@),
                ),
            decreases remaining(self.input(), self.current as int),
        {
            let operation = self.get_current();
            self.advance();
            let right = match self.from_builder(builder) {
                Ok(node) => node,
                Err(diagnostic) => {
                    return Err(diagnostic);
                },
            };
            left = Node::Binary { left: Box::new(left), right: Box::new(right), operation };
        }
        Ok(left)
    }

    /// Reads values joined by `+` and `-`.
    pub fn additive_expression(&mut self) -> (result: Result<Node, Diagnostic>)
        requires
            old(self).wf(),
        ensures
            final(self).yields(
                *old(self),
                result,
                parse_additive(old(self).input(), old(self).current as int),
            ),
        decreases remaining(old(self).input(), old(self).current as int), 4int,
    {
        let operators = vec![Token::OpAdd, Token::OpSub];
        assert(token_views(operators@) =~= additive_operators());
        self.binary_expression(Builder::Unary, &operators)
    }

    /// Reads additive expressions joined by `%`, `*` and `/`.
    pub fn multiplicative_expression(&mut self) -> (result: Result<Node, Diagnostic>)
        requires
            old(self).wf(),
        ensures
            final(self).yields(
                *old(self),
                result,
                parse_multiplicative(old(self).input(), old(self).current as int),
            ),
        decreases remaining(old(self).input(), old(self).current as int), 8int,
    {
        let operators = vec![Token::OpMod, Token::OpMul, Token::OpDiv];
        assert(token_views(operators@) =~= multiplicative_operators());
        self.binary_expression(Builder::Additive, &operators)
    }

    /// Reads an expression.
    pub fn expression(&mut self) -> (result: Result<Node, Diagnostic>)
        requires
            old(self).wf(),
        ensures
            final(self).yields(
                *old(self),
                result,
                parse_expression(old(self).input(), old(self).current as int),
            ),
        decreases remaining(old(self).input(), old(self).current as int), 9int,
    {
        self.multiplicative_expression()
    }

    /// Reads the list of a destructuring declaration, from the token after
    /// its `{` on, and leaves the cursor on the `}` that closes it.
    pub fn properties(&mut self, mutable: bool) -> (result: Result<Vec<(String, bool)>, Diagnostic>)
        requires
            old(self).wf(),
        ensures
            ({
                let list = parse_properties(
                    old(self).input(),
                    old(self).current as int,
                    mutable,
                    Seq::empty(),
                    Seq::empty(),
                );
                &&& final(self).warned(*old(self), list.notices)
                &&& match list.outcome {
                    Outcome::Done { value, next } => {
                        &&& result matches Ok(properties)
                        &&& property_views(properties@) == value
                        &&& final(self).current == next
                        &&& old(self).current < next < old(self).tokens.len()
                    },
                    Outcome::Failed { message, at } => {
                        &&& result matches Err(diagnostic)
                        &&& diagnostic@ == fatal_at(final(self).input(), message, at)
                        &&& final(self).current == at
                    },
                }
            }),
    {
        let mut collected: Vec<(String, bool)> = Vec::new();
        let ghost mut notices: Seq<Notice> = Seq::empty();
        proof {
            assert(property_views(collected@) =~= Seq::<(Seq<char>, bool)>::empty());
            assert(diagnostic_views(self.reports@) + warnings_at(self.input(), notices)
                =~= diagnostic_views(self.reports@));
        }
        loop
            invariant
                self.warned(*old(self), notices),
                old(self).current <= self.current,
                parse_properties(
                    old(self).input(),
                    old(self).current as int,
                    mutable,
                    Seq::empty(),
                    Seq::empty(),
                ) == parse_properties(
                    self.input(),
                    self.current as int,
                    mutable,
                    property_views(collected@),
                    notices,
                ),
            decreases remaining(self.input(), self.current as int),
        {
            let ghost held = collected@;
            let ghost given = notices;
            let token = self.get_current();
            match token {
                Token::Identifier(name) => {
                    collected.push((name, mutable));
                },
                Token::Keyword(word) => {
                    if !same_text(word.as_str(), "mut") {
                        return Err(self.error("Expected identifier or `mut`."));
                    }
                    let marked = self.advance();
                    match marked {
                        Token::Identifier(name) => {
                            if mutable {
                                let mut warning = String::new();
                                push_text(
                                    &mut warning,
                                    "Warning: All destructured properties are mutable. `mut` before `",
                                );
                                push_text(&mut warning, name.as_str());
                                push_text(&mut warning, "` is unnecessary.");
                                assert(warning@ =~= redundant_mut(name@));
                                let ghost reported = diagnostic_views(self.reports@);
                                self.warn(warning.as_str());
                                proof {
                                    let notice = Notice {
                                        message: redundant_mut(name@),
                                        at: self.current as int,
                                    };
                                    notices = given.push(notice);
                                    assert(warnings_at(self.input(), given.push(notice))
                                        =~= warnings_at(self.input(), given).push(
                                        warning_at(self.input(), notice),
                                    ));
                                    assert(diagnostic_views(old(self).reports@) + warnings_at(
                                        self.input(),
                                        notices,
                                    ) =~= reported.push(warning_at(self.input(), notice)));
                                }
                            }
                            collected.push((name, true));
                        },
                        _ => {
                            return Err(self.error("Expected identifier after `mut`."));
                        },
                    }
                },
                _ => {
                    return Err(self.error("Expected identifier or `mut`."));
                },
            }
            proof {
                let last = collected@.last();
                assert(property_views(held.push(last)) =~= property_views(held).push(
                    (last.0@, last.1),
                ));
                assert(collected@ == held.push(last));
            }
            let follower = self.advance();
            match follower {
                Token::CurlyRight => {
                    return Ok(collected);
                },
                Token::Identifier(_) => {},
                Token::Keyword(word) => {
                    if !same_text(word.as_str(), "mut") {
                        self.advance();
                    }
                },
                _ => {
                    if self.current >= self.tokens.len() {
                        return Err(self.error("Expected identifier or `mut`."));
                    }
                    self.advance();
                },
            }
        }
    }

    /// Reads a declaration, with the cursor on its `let`. `public` says
    /// whether `pub` stood before it.
    pub fn variable_init(&mut self, public: bool) -> (result: Result<Node, Diagnostic>)
        requires
            old(self).wf(),
            old(self).current < usize::MAX,
        ensures
            final(self).declares(
                *old(self),
                result,
                parse_declaration(old(self).input(), old(self).current as int, public),
            ),
    {
        proof {
            assert(diagnostic_views(self.reports@) + warnings_at(self.input(), Seq::empty())
                =~= diagnostic_views(self.reports@));
        }
        self.advance();
        let mutable = self.current_is(&Token::Keyword("mut".to_owned()));
        if mutable {
            self.advance();
        }
        let target = self.get_current();
        match target {
            Token::Identifier(name) => {
                match self.expect(Token::OpAssign, "Expected assignment operator") {
                    Ok(_) => {},
                    Err(diagnostic) => {
                        return Err(diagnostic);
                    },
                }
                self.advance();
                match self.expression() {
                    Ok(value) => Ok(
                        Node::VariableAssignment { name, value: Box::new(value), mutable, public },
                    ),
                    Err(diagnostic) => Err(diagnostic),
                }
            },
            Token::CurlyLeft => {
                if public {
                    return Err(self.error("SyntaxError: Expected identifier after `pub let`"));
                }
                self.advance();
                let properties = match self.properties(mutable) {
                    Ok(properties) => properties,
                    Err(diagnostic) => {
                        return Err(diagnostic);
                    },
                };
                match self.expect(Token::OpAssign, "Expected assignment operator") {
                    Ok(_) => {},
                    Err(diagnostic) => {
                        return Err(diagnostic);
                    },
                }
                let source = self.advance();
                match source {
                    Token::Identifier(name) => {
                        self.advance();
                        let taken = Node::Identifier(name);
                        assert(taken@ == NodeView::Identifier(name@));
                        Ok(
                            Node::VariableDestructureAssignment {
                                properties,
                                value: Box::new(taken),
                                mutable,
                            },
                        )
                    },
                    _ => Err(
                        self.error(
                            "SyntaxError: Destructured variable right hand side must be a single identifier",
                        ),
                    ),
                }
            },
            _ => Err(self.error("SyntaxError: Expected identifier or `{` after `let`")),
        }
    }

    /// Reads a statement.
    pub fn statement(&mut self) -> (result: Result<Node, Diagnostic>)
        requires
            old(self).wf(),
        ensures
            final(self).declares(
                *old(self),
                result,
                parse_statement(old(self).input(), old(self).current as int),
            ),
    {
        proof {
            assert(diagnostic_views(self.reports@) + warnings_at(self.input(), Seq::empty())
                =~= diagnostic_views(self.reports@));
        }
        while self.current_is(&Token::OpNewline)
            invariant
                self.reads_on(*old(self)),
                old(self).current <= self.current,
                parse_statement(old(self).input(), old(self).current as int) == parse_statement(
                    self.input(),
                    self.current as int,
                ),
            decreases remaining(self.input(), self.current as int),
        {
            self.advance();
        }
        let token = self.get_current();
        match token {
            Token::Keyword(word) => {
                if same_text(word.as_str(), "let") {
                    self.variable_init(false)
                } else if same_text(word.as_str(), "pub") {
                    self.advance();
                    if self.current_is(&Token::Keyword("let".to_owned())) {
                        self.variable_init(true)
                    } else {
                        Err(self.error("SyntaxError: Expected `let` after `pub`"))
                    }
                } else {
                    let message = unexpected_message(
                        "SyntaxError: Unexpected token [1] `",
                        &Token::Keyword(word),
                        "`.",
                    );
                    Err(self.error(message.as_str()))
                }
            },
            Token::NumberLiteral(_)
            | Token::StringLiteral(_)
            | Token::BooleanLiteral(_)
            | Token::OpNot
            | Token::OpSub
            | Token::ParenLeft
            | Token::BuiltinFn(_) => self.expression(),
            other => {
                let message = unexpected_message("SyntaxError: Unexpected token [1] `", &other, "`.");
                Err(self.error(message.as_str()))
            },
        }
    }

    /// What `parse` does to a parser: `self` is `before` once parsed, and
    /// `result` what the parse returned. Where every statement can be read,
    /// they are appended to `ast` in order. Where one cannot, `ast` is as
    /// it was, and the fatal diagnostic comes back. Either way the
    /// warnings given on the way are appended to `reports`.
    pub open spec fn parsed(&self, before: Parser, result: Result<(), Diagnostic>) -> bool {
        let program = parse_program(before.input(), before.current as int);
        &&& self.wf()
        &&& self.tokens == before.tokens
        &&& self.source == before.source
        &&& diagnostic_views(self.reports@) == diagnostic_views(before.reports@) + warnings_at(
            before.input(),
            program.notices,
        )
        &&& self.current == program.end
        &&& before.current <= self.current
        &&& match program.failure {
            None => {
                &&& result is Ok
                &&& self.ast@.len() == before.ast@.len() + program.nodes.len()
                &&& self.ast@.take(before.ast@.len() as int) == before.ast@
                &&& node_views(self.ast@.skip(before.ast@.len() as int)) == program.nodes
            },
            Some(notice) => {
                &&& result matches Err(diagnostic)
                &&& diagnostic@ == fatal_at(before.input(), notice.message, notice.at)
                &&& self.ast@ == before.ast@
            },
        }
    }

    /// Reads statements until the tokens are used up and appends them to
    /// `ast`. The first statement that cannot be read ends parsing: its
    /// diagnostic is returned, and no statement is appended.
    #[verifier::spinoff_prover]
    pub fn parse(&mut self) -> (result: Result<(), Diagnostic>)
        requires
            old(self).wf(),
        ensures
            final(self).parsed(*old(self), result),
    {
        let kept = self.ast.len();
        let ghost whole = parse_program(self.input(), self.current as int);
        let ghost mut nodes: Seq<NodeView> = Seq::empty();
        let ghost mut notices: Seq<Notice> = Seq::empty();
        proof {
            assert(self.ast@.take(kept as int) =~= self.ast@);
            assert(node_views(self.ast@.skip(kept as int)) =~= nodes);
            assert(diagnostic_views(self.reports@) + warnings_at(self.input(), notices)
                =~= diagnostic_views(self.reports@));
            assert(nodes + whole.nodes =~= whole.nodes);
            assert(notices + whole.notices =~= whole.notices);
        }
        while !self.is_at_end()
            invariant
                self.wf(),
                self.tokens == old(self).tokens,
                self.source == old(self).source,
                old(self).current <= self.current,
                kept == old(self).ast@.len(),
                whole == parse_program(old(self).input(), old(self).current as int),
                self.ast@.len() == kept + nodes.len(),
                self.ast@.take(kept as int) == old(self).ast@,
                node_views(self.ast@.skip(kept as int)) == nodes,
                diagnostic_views(self.reports@) == diagnostic_views(old(self).reports@)
                    + warnings_at(self.input(), notices),
                whole.nodes == nodes + parse_program(self.input(), self.current as int).nodes,
                whole.notices == notices + parse_program(self.input(), self.current as int).notices,
                whole.failure == parse_program(self.input(), self.current as int).failure,
                whole.end == parse_program(self.input(), self.current as int).end,
            decreases remaining(self.input(), self.current as int),
        {
            let ghost before = *self;
            let ghost first = parse_statement(self.input(), self.current as int);
            let ghost rest = parse_program(self.input(), self.current as int);
            let ghost reported = diagnostic_views(self.reports@);
            match self.statement() {
                Ok(node) => {
                    proof {
                        let after = parse_program(self.input(), self.current as int);
                        assert(rest.nodes == seq![node@] + after.nodes);
                        assert(nodes.push(node@) + after.nodes =~= nodes + rest.nodes);
                        assert((notices + first.notices) + after.notices =~= notices
                            + rest.notices);
                        assert(warnings_at(self.input(), notices + first.notices) =~= warnings_at(
                            self.input(),
                            notices,
                        ) + warnings_at(self.input(), first.notices));
                        assert(diagnostic_views(self.reports@) =~= diagnostic_views(
                            old(self).reports@,
                        ) + warnings_at(self.input(), notices + first.notices));
                        let grown = self.ast@.push(node);
                        assert(grown.take(kept as int) =~= self.ast@.take(kept as int));
                        assert(grown.skip(kept as int) =~= self.ast@.skip(kept as int).push(node));
                        assert(node_views(self.ast@.skip(kept as int).push(node)) =~= node_views(
                            self.ast@.skip(kept as int),
                        ).push(node@));
                        nodes = nodes.push(node@);
                        notices = notices + first.notices;
                    }
                    self.ast.push(node);
                },
                Err(diagnostic) => {
                    proof {
                        assert(warnings_at(self.input(), notices + first.notices) =~= warnings_at(
                            self.input(),
                            notices,
                        ) + warnings_at(self.input(), first.notices));
                        assert(diagnostic_views(self.reports@) =~= diagnostic_views(
                            old(self).reports@,
                        ) + warnings_at(self.input(), notices + first.notices));
                        assert(self.ast@.take(kept as int) =~= self.ast@.subrange(0, kept as int));
                    }
                    self.ast.truncate(kept);
                    return Err(diagnostic);
                },
            }
        }
        Ok(())
    }

    /// The report of `diagnostic` against the source of this parser, as the
    /// lines of text that a terminal is sent; nothing where the source has
    /// no line of the diagnostic's number.
    pub fn describe(&self, diagnostic: &Diagnostic) -> (shown: Option<Vec<String>>)
        ensures
            match shown {
                Some(lines) => {
                    &&& diagnostic.line < lines_of(self.source@).len()
                    &&& report_painted(
                        report_layout(
                            diagnostic.message@,
                            lines_of(self.source@),
                            diagnostic.line as nat,
                            diagnostic.column as nat,
                            diagnostic.severity,
                        ),
                        text_views(lines@),
                    )
                },
                None => diagnostic.line >= lines_of(self.source@).len(),
            },
    {
        let lines = split_lines(self.source.as_str());
        if diagnostic.line < lines.len() {
            Some(
                report(
                    diagnostic.message.as_str(),
                    &lines,
                    diagnostic.line,
                    diagnostic.column,
                    diagnostic.severity,
                ),
            )
        } else {
            None
        }
    }
}


/// The line count does not fall along the tokens.
proof fn lemma_newlines_rise(tokens: Seq<TokenView>, from: int, to: int)
    requires
        from <= to,
    ensures
        newlines_before(tokens, from) <= newlines_before(tokens, to),
    decreases to - from,
{
    if from < to {
        lemma_newlines_rise(tokens, from, to - 1);
    }
}

/// Past the last token the line count stays.
proof fn lemma_newlines_past_the_end(tokens: Seq<TokenView>, at: int)
    requires
        tokens.len() <= at,
    ensures
        newlines_before(tokens, at) == newlines_before(tokens, tokens.len() as int),
    decreases at - tokens.len(),
{
    if tokens.len() < at {
        lemma_newlines_past_the_end(tokens, at - 1);
    }
}

/// One token before a sequence adds one to its line counts if it is a
/// newline token, and nothing otherwise.
proof fn lemma_newlines_behind(first: TokenView, rest: Seq<TokenView>, at: int)
    requires
        0 <= at <= rest.len(),
    ensures
        newlines_before(seq![first] + rest, at + 1) == newlines_before(rest, at) + if first
            == TokenView::OpNewline {
            1nat
        } else {
            0nat
        },
    decreases at,
{
    let whole = seq![first] + rest;
    if at > 0 {
        lemma_newlines_behind(first, rest, at - 1);
        assert(token_at(whole, at) == token_at(rest, at - 1));
    } else {
        assert(token_at(whole, 0) == first);
        assert(newlines_before(whole, 0) == 0);
    }
}

/// Scanning makes no more newline tokens than the source holds newline
/// characters.
proof fn lemma_scanned_newlines(source: Seq<char>, at: int)
    requires
        0 <= at <= source.len(),
    ensures
        newlines_before(scan_from(source, at).tokens, scan_from(source, at).tokens.len() as int)
            <= newline_count(source.skip(at)),
    decreases source.len() - at,
{
    if at < source.len() {
        match lexeme_at(source, at) {
            Ok(lexeme) => {
                lemma_lexeme_advances(source, at);
                lemma_scanned_newlines(source, lexeme.end);
                lemma_newline_count_falls(source, at + 1, lexeme.end);
                assert(source.skip(at).drop_first() =~= source.skip(at + 1));
                let rest = scan_from(source, lexeme.end).tokens;
                match lexeme.token {
                    Some(token) => {
                        lemma_newlines_behind(token, rest, rest.len() as int);
                    },
                    None => {},
                }
            },
            Err(_) => {},
        }
    }
}

/// The tokens scanned from a source hold fewer newline tokens than the
/// source has lines, so every diagnostic about them names a line of the
/// source: `describe` has a report for it.
pub proof fn lemma_lines_are_in_the_source(source: Seq<char>, at: int)
    ensures
        newlines_before(scan_from(source, 0).tokens, at) < lines_of(source).len(),
{
    let tokens = scan_from(source, 0).tokens;
    lemma_scanned_newlines(source, 0);
    assert(source.skip(0) =~= source);
    lemma_line_count(source);
    if at <= tokens.len() {
        lemma_newlines_rise(tokens, at, tokens.len() as int);
    } else {
        lemma_newlines_past_the_end(tokens, at);
    }
}

} // verus!
