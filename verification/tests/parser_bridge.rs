//! The pass on programs that the parser has read, printed by the emitter.

use oxc_allocator::{Allocator, CloneIn};
use oxc_ast::ast::{
    Argument, ArrayExpressionElement, BinaryOperator, Expression, ExpressionStatement,
    LogicalOperator, Program, TemplateElementValue,
};
use oxc_ast::visit::walk_mut::walk_expression_statement;
use oxc_ast::{AstBuilder, VisitMut, NONE};
use oxc_parser::Parser;
use oxc_span::{GetSpan, SourceType, Span, SPAN};
use xtal::ast as tree;
use oxc_codegen::{CodeGenerator, CodegenOptions};
use xtal::replacer::{is_reporting_call, AstReplacer};

const BINARY_OPERATORS: [BinaryOperator; 22] = [
    BinaryOperator::Equality,
    BinaryOperator::Inequality,
    BinaryOperator::StrictEquality,
    BinaryOperator::StrictInequality,
    BinaryOperator::LessThan,
    BinaryOperator::LessEqualThan,
    BinaryOperator::GreaterThan,
    BinaryOperator::GreaterEqualThan,
    BinaryOperator::Addition,
    BinaryOperator::Subtraction,
    BinaryOperator::Multiplication,
    BinaryOperator::Division,
    BinaryOperator::Remainder,
    BinaryOperator::Exponential,
    BinaryOperator::ShiftLeft,
    BinaryOperator::ShiftRight,
    BinaryOperator::ShiftRightZeroFill,
    BinaryOperator::BitwiseOR,
    BinaryOperator::BitwiseXOR,
    BinaryOperator::BitwiseAnd,
    BinaryOperator::In,
    BinaryOperator::Instanceof,
];

const LOGICAL_OPERATORS: [LogicalOperator; 3] =
    [LogicalOperator::Or, LogicalOperator::And, LogicalOperator::Coalesce];

/// The pass over a program of the parser.
pub struct Instrumenter<'a> {
    replacer: AstReplacer,
    source_text: &'a str,
    source_type: SourceType,
    ast: AstBuilder<'a>,
    allocator: &'a Allocator,
}

impl<'a> Instrumenter<'a> {
    pub fn new(allocator: &'a Allocator, source_text: &'a str, source_type: SourceType) -> Self {
        Self {
            replacer: AstReplacer::new(source_text.to_string()),
            source_text,
            source_type,
            ast: AstBuilder::new(allocator),
            allocator,
        }
    }

    /// Instruments every expression statement that the tree walk reaches.
    pub fn build(&mut self, program: &mut Program<'a>) {
        self.visit_program(program);
    }

    fn other(&self, span: Span) -> tree::Expression {
        tree::Expression::Other {
            source: span.source_text(self.source_text).to_string(),
            body: Vec::new(),
        }
    }

    fn boxed(&self, expression: &Expression<'a>) -> Box<tree::Expression> {
        Box::new(self.expression_tree(expression))
    }

    /// The library's tree of an expression of the parser.
    fn expression_tree(&self, expression: &Expression<'a>) -> tree::Expression {
        match expression {
            Expression::ConditionalExpression(it) => tree::Expression::Conditional {
                test: self.boxed(&it.test),
                consequent: self.boxed(&it.consequent),
                alternate: self.boxed(&it.alternate),
            },
            Expression::TemplateLiteral(it) => tree::Expression::TemplateLiteral {
                quasis: it.quasis.iter().map(|quasi| quasi.value.raw.to_string()).collect(),
                expressions: it.expressions.iter().map(|e| self.expression_tree(e)).collect(),
            },
            Expression::ArrayExpression(it) => tree::Expression::Array {
                elements: it.elements.iter().map(|e| self.element_tree(e)).collect(),
            },
            Expression::ParenthesizedExpression(it) => {
                tree::Expression::Parenthesized { expression: self.boxed(&it.expression) }
            }
            Expression::BinaryExpression(it) => tree::Expression::Binary {
                left: self.boxed(&it.left),
                operator: it.operator.as_str().to_string(),
                right: self.boxed(&it.right),
            },
            Expression::LogicalExpression(it) => tree::Expression::Logical {
                left: self.boxed(&it.left),
                operator: it.operator.as_str().to_string(),
                right: self.boxed(&it.right),
            },
            Expression::BooleanLiteral(it) => tree::Expression::BooleanLiteral { value: it.value },
            Expression::StringLiteral(it) => {
                tree::Expression::StringLiteral { value: it.value.to_string() }
            }
            Expression::NumericLiteral(it) => {
                tree::Expression::NumericLiteral { raw: it.raw.to_string() }
            }
            Expression::Identifier(it) => {
                tree::Expression::Identifier { name: it.name.to_string() }
            }
            Expression::StaticMemberExpression(it) => tree::Expression::StaticMember {
                object: self.boxed(&it.object),
                property: it.property.name.to_string(),
                optional: it.optional,
            },
            Expression::CallExpression(it) => tree::Expression::Call {
                callee: self.boxed(&it.callee),
                arguments: it.arguments.iter().map(|a| self.argument_tree(a)).collect(),
                optional: it.optional,
            },
            _ => self.other(expression.span()),
        }
    }

    fn argument_tree(&self, argument: &Argument<'a>) -> tree::Expression {
        match argument.as_expression() {
            Some(expression) => self.expression_tree(expression),
            None => self.other(argument.span()),
        }
    }

    fn element_tree(&self, element: &ArrayExpressionElement<'a>) -> tree::Expression {
        match element.as_expression() {
            Some(expression) => self.expression_tree(expression),
            None => self.other(element.span()),
        }
    }

    /// The expression of the parser for a tree of the library. What the
    /// pass took over from the statement is copied from the statement; what
    /// the pass made is built.
    fn expression(&self, wanted: &tree::Expression, given: &Expression<'a>) -> Expression<'a> {
        if *wanted == self.expression_tree(given) {
            return given.clone_in(self.allocator);
        }
        let part = |inner: &tree::Expression| self.expression(inner, given);
        match wanted {
            tree::Expression::Conditional { test, consequent, alternate } => {
                self.ast.expression_conditional(SPAN, part(test), part(consequent), part(alternate))
            }
            tree::Expression::TemplateLiteral { quasis, expressions } => {
                let last = quasis.len().saturating_sub(1);
                let elements = quasis.iter().enumerate().map(|(i, raw)| {
                    let value = TemplateElementValue { raw: self.ast.atom(raw), cooked: None };
                    self.ast.template_element(SPAN, i == last, value)
                });
                self.ast.expression_template_literal(
                    SPAN,
                    self.ast.vec_from_iter(elements),
                    self.ast.vec_from_iter(expressions.iter().map(part)),
                )
            }
            tree::Expression::Array { elements } => {
                let elements = elements.iter().map(|e| self.element(e, given));
                self.ast.expression_array(SPAN, self.ast.vec_from_iter(elements), None)
            }
            tree::Expression::Parenthesized { expression } => {
                self.ast.expression_parenthesized(SPAN, part(expression))
            }
            tree::Expression::Binary { left, operator, right } => {
                let operator = BINARY_OPERATORS
                    .into_iter()
                    .find(|known| known.as_str() == operator)
                    .expect("a binary operator of the language");
                self.ast.expression_binary(SPAN, part(left), operator, part(right))
            }
            tree::Expression::Logical { left, operator, right } => {
                let operator = LOGICAL_OPERATORS
                    .into_iter()
                    .find(|known| known.as_str() == operator)
                    .expect("a logical operator of the language");
                self.ast.expression_logical(SPAN, part(left), operator, part(right))
            }
            tree::Expression::BooleanLiteral { value } => {
                self.ast.expression_boolean_literal(SPAN, *value)
            }
            tree::Expression::StringLiteral { value } => {
                self.ast.expression_string_literal(SPAN, value.as_str(), None)
            }
            tree::Expression::NumericLiteral { raw } => self.parsed(raw),
            tree::Expression::Identifier { name } => {
                self.ast.expression_identifier_reference(SPAN, name.as_str())
            }
            tree::Expression::StaticMember { object, property, optional } => {
                let property = self.ast.identifier_name(SPAN, property.as_str());
                Expression::from(self.ast.member_expression_static(
                    SPAN,
                    part(object),
                    property,
                    *optional,
                ))
            }
            tree::Expression::Call { callee, arguments, optional } => {
                let arguments = arguments.iter().map(|a| self.argument(a, given));
                self.ast.expression_call(
                    SPAN,
                    part(callee),
                    NONE,
                    self.ast.vec_from_iter(arguments),
                    *optional,
                )
            }
            tree::Expression::Other { source, .. } => self.parsed(source),
        }
    }

    /// The argument of a call for a tree of the library: one of the
    /// statement's own arguments where the pass handed it on.
    fn argument(&self, wanted: &tree::Expression, given: &Expression<'a>) -> Argument<'a> {
        if let Expression::CallExpression(call) = given {
            for argument in &call.arguments {
                if *wanted == self.argument_tree(argument) {
                    return argument.clone_in(self.allocator);
                }
            }
        }
        Argument::from(self.expression(wanted, given))
    }

    fn element(
        &self,
        wanted: &tree::Expression,
        given: &Expression<'a>,
    ) -> ArrayExpressionElement<'a> {
        ArrayExpressionElement::from(self.expression(wanted, given))
    }

    /// The expression that a piece of source text stands for.
    fn parsed(&self, source: &str) -> Expression<'a> {
        let text = self.ast.str(source);
        Parser::new(self.allocator, text, self.source_type)
            .parse_expression()
            .expect("an expression of the language")
    }
}

impl<'a> VisitMut<'a> for Instrumenter<'a> {
    fn visit_expression_statement(&mut self, it: &mut ExpressionStatement<'a>) {
        let mut statement = tree::ExpressionStatement {
            start: it.span.start,
            expression: self.expression_tree(&it.expression),
        };
        self.replacer.visit_expression_statement(&mut statement);
        if is_reporting_call(&statement.expression) {
            it.expression = self.expression(&statement.expression, &it.expression);
            return;
        }
        walk_expression_statement(self, it);
    }
}

/// Parses `source`, runs the pass, and emits the program.
fn instrument(source: &str) -> String {
    let allocator = Allocator::default();
    let source_type = SourceType::default();
    let parsed = Parser::new(&allocator, source, source_type).parse();
    assert!(parsed.errors.is_empty(), "{:?}", parsed.errors);
    let program = allocator.alloc(parsed.program);
    Instrumenter::new(&allocator, source, source_type).build(program);
    CodeGenerator::new().with_options(CodegenOptions::default()).build(program).code
}

#[test]
fn numeric_literal_statement_is_reported() {
    assert_eq!(instrument("5;"), "Xtal(1, 5);\n");
}

#[test]
fn binary_expression_after_blank_line_is_reported_whole() {
    assert_eq!(instrument("\n\"x\" + \"y\";"), "Xtal(2, \"x\" + \"y\");\n");
}

#[test]
fn comment_line_counts_as_a_line() {
    let emitted = instrument("// note\n\"x\" + \"y\";");
    let words: Vec<&str> = emitted.split_whitespace().collect();
    assert_eq!(words, vec!["Xtal(", "2,", "//", "note", "\"x\"", "+", "\"y\"", ");"]);
}

#[test]
fn console_log_hands_its_arguments_to_the_hook() {
    assert_eq!(instrument("\n\nconsole.log(\"a\", \"b\")"), "Xtal(3, \"a\", \"b\");\n");
}

#[test]
fn console_log_with_spread_argument() {
    assert_eq!(instrument("console.log(...xs);"), "Xtal(1, ...xs);\n");
}

#[test]
fn property_chain_is_reported_by_name() {
    assert_eq!(instrument("a.b.c;"), "Xtal(1, \"a.b.c\");\n");
}

#[test]
fn other_call_runs_inside_the_hook() {
    assert_eq!(instrument("f(1, g(2));"), "Xtal(1, f(1, g(2)));\n");
    assert_eq!(instrument("a.b(1);"), "Xtal(1, a.b(1));\n");
}

#[test]
fn literals_and_identifiers_are_reported() {
    assert_eq!(instrument("true;"), "Xtal(1, true);\n");
    assert_eq!(instrument("x;\n\"s\";"), "Xtal(1, x);\nXtal(2, \"s\");\n");
}

#[test]
fn template_array_conditional_and_logical_are_reported_whole() {
    assert_eq!(instrument("`a${b}c`;"), "Xtal(1, `a${b}c`);\n");
    assert_eq!(instrument("[1, ...xs, , 2];"), "Xtal(1, [\n\t1,\n\t...xs,\n\t,\n\t2\n]);\n");
    assert_eq!(instrument("a ? b : c;"), "Xtal(1, a ? b : c);\n");
    assert_eq!(instrument("a && b;"), "Xtal(1, a && b);\n");
}

#[test]
fn directives_are_no_expression_statements() {
    assert_eq!(instrument("\"use strict\";\n1;"), "\"use strict\";\nXtal(2, 1);\n");
}

#[test]
fn unrecognised_statements_are_left_alone() {
    assert_eq!(instrument("x = 1;"), "x = 1;\n");
    assert_eq!(instrument("let y = 2;\ny++;\nnew Date();"), "let y = 2;\ny++;\nnew Date();\n");
}

#[test]
fn statements_in_blocks_are_reached() {
    assert_eq!(
        instrument("if (a) { b; } else { c.d; }"),
        "if (a) {\n\tXtal(1, b);\n} else {\n\tXtal(1, \"c.d\");\n}\n"
    );
    assert_eq!(
        instrument("function f() {\n  1;\n  return 2;\n}"),
        "function f() {\n\tXtal(2, 1);\n\treturn 2;\n}\n"
    );
}

#[test]
fn statements_inside_untouched_expression_are_reached() {
    assert_eq!(instrument("x = function() {\n 5;\n};"), "x = function() {\n\tXtal(2, 5);\n};\n");
}

#[test]
fn statements_inside_reported_expression_are_not_reached() {
    assert_eq!(instrument("f(() => { 5; });"), "Xtal(1, f(() => {\n\t5;\n}));\n");
}

#[test]
fn instrumented_output_is_wrapped_again() {
    let once = instrument("5;\nconsole.log(1);");
    assert_eq!(once, "Xtal(1, 5);\nXtal(2, 1);\n");
    let twice = instrument(&once);
    assert_eq!(twice, "Xtal(1, Xtal(1, 5));\nXtal(2, Xtal(2, 1));\n");
}

#[test]
fn same_source_gives_same_output() {
    let source = "a.b;\nconsole.log(a, b);\nf(x);";
    assert_eq!(instrument(source), instrument(source));
}
