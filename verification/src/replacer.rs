//! The instrumentation pass: every expression statement of a program is
//! rewritten into a call of the reporting hook, which receives the
//! statement's source line and what the statement computed.
//!
//! The pass knows a closed set of kinds of expression; a statement of any
//! other kind is left as it is, and only such a statement has the statements
//! nested in it visited. A statement that already is a call of the hook is a
//! call like any other: the pass wraps it once more, so passing a program
//! twice reports every hook call of the first pass through the hook of the
//! second.

use vstd::prelude::*;
use vstd::string::*;
use vstd::utf8::encode_utf8;
use crate::ast::{
    expression_view, expression_views, statement_views, Expression, ExpressionStatement,
    ExpressionStatementView, ExpressionView, Program, ProgramView, Statement, StatementView,
};
use crate::position::{get_line_number, line_number};
use crate::text::{decimal, decimal_text, join, lemma_join_prepend};

verus! {

/// The reserved name under which the host binds the reporting hook.
pub const HOOK_NAME: &'static str = "Xtal";

/// The name of the logging object whose calls hand their arguments to the hook.
pub const CONSOLE_NAME: &'static str = "console";

/// The numeric literal that stands for a source line in a hook call.
pub open spec fn line_literal(line: nat) -> ExpressionView {
    ExpressionView::NumericLiteral { raw: decimal(line) }
}

/// A call of the reporting hook: the line first, then the payload.
pub open spec fn hook_call(line: nat, payload: Seq<ExpressionView>) -> ExpressionView {
    ExpressionView::Call {
        callee: Box::new(ExpressionView::Identifier { name: HOOK_NAME@ }),
        arguments: seq![line_literal(line)] + payload,
        optional: false,
    }
}

/// Whether an expression is a call whose callee is the hook's name.
pub open spec fn is_hook_call(e: ExpressionView) -> bool {
    e matches ExpressionView::Call { callee, .. } && *callee == (ExpressionView::Identifier {
        name: HOOK_NAME@,
    })
}

/// The names along a chain of property accesses, from the innermost to the
/// outermost. The chain starts at an identifier, whose name comes first, or
/// at some other expression, which contributes nothing.
pub open spec fn chain_names(e: ExpressionView) -> Seq<Seq<char>>
    decreases e,
{
    match e {
        ExpressionView::StaticMember { object, property, .. } => chain_names(*object).push(
            property,
        ),
        ExpressionView::Identifier { name } => seq![name],
        _ => Seq::empty(),
    }
}

/// The dotted name of a chain of property accesses, such as `a.b.c`.
pub open spec fn dotted_name(e: ExpressionView) -> Seq<char> {
    join(chain_names(e), "."@)
}

/// Whether a callee is a property of the logging object, as in `console.log`.
pub open spec fn is_console_callee(callee: ExpressionView) -> bool {
    callee matches ExpressionView::StaticMember { object, .. } && *object
        == (ExpressionView::Identifier { name: CONSOLE_NAME@ })
}

/// What the hook receives after the line for a statement with expression
/// `e`, or `None` if the statement is left as it is:
/// - a property access chain reports its dotted name as a string literal;
/// - a call of a property of the logging object hands over its arguments;
/// - the other kinds that the pass knows report the whole expression;
/// - any other expression is not reported.
pub open spec fn payload(e: ExpressionView) -> Option<Seq<ExpressionView>> {
    match e {
        ExpressionView::StaticMember { .. } => Some(
            seq![ExpressionView::StringLiteral { value: dotted_name(e) }],
        ),
        ExpressionView::Call { callee, arguments, .. } => if is_console_callee(*callee) {
            Some(arguments)
        } else {
            Some(seq![e])
        },
        ExpressionView::Other { .. } => None,
        _ => Some(seq![e]),
    }
}

/// An expression statement after the pass has handled it, before the pass
/// descends: its expression is the hook call for its line and payload, or
/// is unchanged where there is no payload.
pub open spec fn instrumented(
    source: Seq<u8>,
    statement: ExpressionStatementView,
) -> ExpressionStatementView {
    match payload(statement.expression) {
        Some(arguments) => ExpressionStatementView {
            start: statement.start,
            expression: hook_call(line_number(source, statement.start as int), arguments),
        },
        None => statement,
    }
}

/// A statement after the pass: an expression statement is instrumented; one
/// that is left as it is, and any other statement, has the statements
/// nested in it visited in turn. The pass does not descend into a statement
/// that it has turned into a hook call.
pub open spec fn visited(source: Seq<u8>, s: StatementView) -> StatementView
    decreases s,
{
    match s {
        StatementView::Expression(statement) => match payload(statement.expression) {
            Some(_) => StatementView::Expression(instrumented(source, statement)),
            None => StatementView::Expression(
                ExpressionStatementView {
                    start: statement.start,
                    expression: walked(source, statement.expression),
                },
            ),
        },
        StatementView::Other { body } => StatementView::Other { body: visited_all(source, body) },
    }
}

/// The statements of a list after the pass.
pub open spec fn visited_all(source: Seq<u8>, items: Seq<StatementView>) -> Seq<StatementView>
    decreases items,
{
    Seq::new(
        items.len(),
        |i: int|
            if 0 <= i < items.len() {
                visited(source, items[i])
            } else {
                StatementView::Other { body: Seq::empty() }
            },
    )
}

/// An expression after the pass has visited the statements nested in it.
pub open spec fn walked(source: Seq<u8>, e: ExpressionView) -> ExpressionView
    decreases e,
{
    match e {
        ExpressionView::Other { source: text, body } => ExpressionView::Other {
            source: text,
            body: visited_all(source, body),
        },
        _ => e,
    }
}

/// A program after the pass.
pub open spec fn instrumented_program(source: Seq<u8>, program: ProgramView) -> ProgramView {
    ProgramView { body: visited_all(source, program.body) }
}

/// A statement is a hook call after the pass has handled it exactly when
/// it had a payload: the pass descends into the statements that it left as
/// they were, and into no others.
pub proof fn lemma_hook_call_iff_payload(source: Seq<u8>, statement: ExpressionStatementView)
    ensures
        is_hook_call(instrumented(source, statement).expression) <==> payload(
            statement.expression,
        ) is Some,
{
}

/// After the pass has handled a statement, its expression is a hook call
/// or one of the expressions that the pass does not look into; no
/// expression of a kind that the pass knows is left unreported.
pub proof fn lemma_handled_is_hook_call_or_other(
    source: Seq<u8>,
    statement: ExpressionStatementView,
)
    ensures
        is_hook_call(instrumented(source, statement).expression) || instrumented(
            source,
            statement,
        ).expression is Other,
{
}

/// The hook call of a statement carries the statement's line first, as a
/// decimal numeral, and then the statement's payload, and nothing else.
pub proof fn lemma_hook_call_arguments(line: nat, payload: Seq<ExpressionView>)
    ensures
        hook_call(line, payload)->Call_arguments.len() == payload.len() + 1,
        hook_call(line, payload)->Call_arguments[0] == (ExpressionView::NumericLiteral {
            raw: decimal(line),
        }),
        hook_call(line, payload)->Call_arguments.skip(1) == payload,
{
    assert(hook_call(line, payload)->Call_arguments.skip(1) =~= payload);
}

/// Whether an expression is of a kind that is reported whole: a
/// conditional, template literal, array literal, parenthesized, binary or
/// logical expression, a boolean, string or numeric literal, an
/// identifier, or a call that is no call of a property of the logging
/// object.
pub open spec fn is_reported_whole(e: ExpressionView) -> bool {
    match e {
        ExpressionView::StaticMember { .. } => false,
        ExpressionView::Other { .. } => false,
        ExpressionView::Call { callee, .. } => !is_console_callee(*callee),
        _ => true,
    }
}

/// A statement of a kind that is reported whole becomes a hook call with
/// exactly two arguments: the statement's line, and the statement's own
/// expression, which is so evaluated once, inside the call.
pub proof fn lemma_whole_expression_is_reported(
    source: Seq<u8>,
    statement: ExpressionStatementView,
)
    requires
        is_reported_whole(statement.expression),
    ensures
        ({
            let line = line_number(source, statement.start as int);
            let after = instrumented(source, statement);
            &&& after.start == statement.start
            &&& after.expression == hook_call(line, seq![statement.expression])
            &&& after.expression->Call_arguments.len() == 2
            &&& after.expression->Call_arguments[0] == line_literal(line)
            &&& after.expression->Call_arguments[1] == statement.expression
        }),
{
}

/// A call of a property of the logging object becomes a hook call that is
/// handed the statement's line and then the call's own arguments, in
/// order: one hook argument, and so one event, for each of them.
pub proof fn lemma_console_call_hands_over_arguments(
    source: Seq<u8>,
    statement: ExpressionStatementView,
)
    requires
        statement.expression matches ExpressionView::Call { callee, .. } && is_console_callee(
            *callee,
        ),
    ensures
        ({
            let line = line_number(source, statement.start as int);
            let given = statement.expression->Call_arguments;
            let after = instrumented(source, statement);
            &&& after.start == statement.start
            &&& after.expression == hook_call(line, given)
            &&& after.expression->Call_arguments.len() == given.len() + 1
            &&& after.expression->Call_arguments[0] == line_literal(line)
            &&& forall|i: int|
                0 <= i < given.len() ==> after.expression->Call_arguments[i + 1] == given[i]
        }),
{
}

/// A property access chain becomes a hook call that is handed the
/// statement's line and the chain's dotted name as a string literal; the
/// chain itself is not among the arguments.
pub proof fn lemma_property_chain_is_reported_by_name(
    source: Seq<u8>,
    statement: ExpressionStatementView,
)
    requires
        statement.expression is StaticMember,
    ensures
        ({
            let line = line_number(source, statement.start as int);
            let after = instrumented(source, statement);
            &&& after.start == statement.start
            &&& after.expression->Call_arguments.len() == 2
            &&& after.expression->Call_arguments[0] == line_literal(line)
            &&& after.expression->Call_arguments[1] == (ExpressionView::StringLiteral {
                value: dotted_name(statement.expression),
            })
            &&& is_hook_call(after.expression)
        }),
{
}

/// The pass is not idempotent: handed its own output, it wraps each hook
/// call once more, whole and under the same line. A statement that it left
/// as it was, it leaves again.
pub proof fn lemma_second_pass_wraps_again(source: Seq<u8>, statement: ExpressionStatementView)
    ensures
        ({
            let once = instrumented(source, statement);
            let twice = instrumented(source, once);
            if payload(statement.expression) is Some {
                &&& twice.start == statement.start
                &&& twice.expression == hook_call(
                    line_number(source, statement.start as int),
                    seq![once.expression],
                )
                &&& twice != once
            } else {
                twice == statement
            }
        }),
{
    let once = instrumented(source, statement);
    let twice = instrumented(source, once);
    if payload(statement.expression) is Some {
        let line = line_number(source, statement.start as int);
        let arguments = payload(statement.expression)->Some_0;
        assert(once.expression == hook_call(line, arguments));
        assert(!is_console_callee(ExpressionView::Identifier { name: HOOK_NAME@ }));
        assert(payload(once.expression) == Some(seq![once.expression]));
        assert(twice.expression == hook_call(line, seq![once.expression]));
        if twice == once {
            let wrapped = seq![line_literal(line)] + seq![once.expression];
            assert(twice.expression->Call_arguments == wrapped);
            assert(wrapped[1] == once.expression);
            lemma_not_its_own_argument(twice.expression, 1);
        }
    }
}

/// How deep calls are nested in the arguments of an expression: 0 for an
/// expression that is no call, and for a call one more than the deepest of
/// its arguments.
spec fn call_depth(e: ExpressionView) -> nat
    decreases e,
{
    match e {
        ExpressionView::Call { callee, arguments, optional } => 1 + deepest(arguments),
        _ => 0,
    }
}

/// The greatest call depth among a list of expressions.
spec fn deepest(items: Seq<ExpressionView>) -> nat
    decreases items,
{
    if items.len() == 0 {
        0
    } else {
        let first = call_depth(items[0]);
        let rest = deepest(items.drop_first());
        if first >= rest {
            first
        } else {
            rest
        }
    }
}

/// Every member of a list is at most as deep as the deepest.
proof fn lemma_deepest_bounds(items: Seq<ExpressionView>, i: int)
    requires
        0 <= i < items.len(),
    ensures
        call_depth(items[i]) <= deepest(items),
    decreases items.len(),
{
    if i > 0 {
        lemma_deepest_bounds(items.drop_first(), i - 1);
    }
}

/// No call is one of its own arguments.
proof fn lemma_not_its_own_argument(e: ExpressionView, i: int)
    requires
        e is Call,
        0 <= i < e->Call_arguments.len(),
    ensures
        e->Call_arguments[i] != e,
{
    lemma_deepest_bounds(e->Call_arguments, i);
}

/// Whether `text` reads exactly as `literal`.
fn text_is(text: &String, literal: &str) -> (same: bool)
    ensures
        same == (text@ == literal@),
{
    let other = String::from_str(literal);
    *text == other
}

/// Whether an expression is a call of the reporting hook.
pub fn is_reporting_call(expression: &Expression) -> (is_call: bool)
    ensures
        is_call == is_hook_call(expression@),
{
    proof {
        reveal_with_fuel(expression_view, 2);
    }
    match expression {
        Expression::Call { callee, .. } => match &**callee {
            Expression::Identifier { name } => text_is(name, HOOK_NAME),
            _ => false,
        },
        _ => false,
    }
}

/// Whether an expression is a call of a property of the logging object.
fn is_console_call(expression: &Expression) -> (is_call: bool)
    ensures
        is_call == (expression@ matches ExpressionView::Call { callee, .. } && is_console_callee(
            *callee,
        )),
{
    proof {
        reveal_with_fuel(expression_view, 3);
    }
    match expression {
        Expression::Call { callee, .. } => match &**callee {
            Expression::StaticMember { object, .. } => match &**object {
                Expression::Identifier { name } => text_is(name, CONSOLE_NAME),
                _ => false,
            },
            _ => false,
        },
        _ => false,
    }
}

/// The dotted name of a chain of property accesses.
fn dotted_name_of(expression: &Expression) -> (name: String)
    ensures
        name@ == dotted_name(expression@),
{
    let mut name = String::new();
    let mut first = true;
    let mut current: &Expression = expression;
    let ghost mut collected: Seq<Seq<char>> = Seq::empty();
    assert(chain_names(current@) + collected =~= chain_names(expression@));
    loop
        invariant_except_break
            chain_names(expression@) == chain_names(current@) + collected,
            name@ == join(collected, "."@),
            first == (collected.len() == 0),
        ensures
            name@ == dotted_name(expression@),
        decreases current,
    {
        match current {
            Expression::StaticMember { object, property, .. } => {
                let mut longer = property.clone();
                if !first {
                    longer.append(".");
                    longer.append(name.as_str());
                }
                proof {
                    lemma_join_prepend(property@, collected, "."@);
                    assert(chain_names(current@) == chain_names(object@).push(property@));
                    assert(chain_names(object@).push(property@) + collected =~= chain_names(
                        object@,
                    ) + (seq![property@] + collected));
                    collected = seq![property@] + collected;
                }
                name = longer;
                first = false;
                current = &**object;
            },
            Expression::Identifier { name: base } => {
                let mut longer = base.clone();
                if !first {
                    longer.append(".");
                    longer.append(name.as_str());
                }
                proof {
                    lemma_join_prepend(base@, collected, "."@);
                    assert(chain_names(current@) =~= seq![base@]);
                }
                name = longer;
                break ;
            },
            _ => {
                assert(chain_names(current@).len() == 0);
                assert(chain_names(current@) + collected =~= collected);
                break ;
            },
        }
    }
    name
}

/// The instrumentation pass over the syntax tree of one source text.
pub struct AstReplacer {
    source_text: String,
}

impl AstReplacer {
    /// The bytes of the source text whose offsets the statements carry.
    pub closed spec fn source(&self) -> Seq<u8> {
        encode_utf8(self.source_text@)
    }

    /// A pass for the program that was parsed from `source_text`.
    pub fn new(source_text: String) -> (replacer: Self)
        ensures
            replacer.source() == encode_utf8(source_text@),
    {
        Self { source_text }
    }

    /// Instruments every expression statement of `program` that the pass
    /// reaches.
    pub fn build(&mut self, program: &mut Program)
        ensures
            final(program)@ == instrumented_program(old(self).source(), old(program)@),
            *final(self) == *old(self),
    {
        self.visit_statements(&mut program.body);
    }

    /// Replaces the expression of `it` by the hook call that reports the
    /// whole expression.
    fn wrap_whole(&mut self, it: &mut ExpressionStatement, line: usize)
        ensures
            final(it)@ == (ExpressionStatementView {
                start: old(it)@.start,
                expression: hook_call(line as nat, seq![old(it)@.expression]),
            }),
            *final(self) == *old(self),
    {
        let mut whole = Expression::BooleanLiteral { value: false };
        core::mem::swap(&mut it.expression, &mut whole);
        let mut args: Vec<Expression> = Vec::new();
        args.push(whole);
        assert(expression_views(args@) =~= seq![old(it)@.expression]);
        it.expression = self.create_debug_call(line, args);
    }

    fn handle_conditional_expression(&mut self, it: &mut ExpressionStatement, line: usize)
        requires
            old(it)@.expression is Conditional,
        ensures
            final(it)@ == (ExpressionStatementView {
                start: old(it)@.start,
                expression: hook_call(line as nat, seq![old(it)@.expression]),
            }),
            *final(self) == *old(self),
    {
        self.wrap_whole(it, line);
    }

    fn handle_template_literal_expression(&mut self, it: &mut ExpressionStatement, line: usize)
        requires
            old(it)@.expression is TemplateLiteral,
        ensures
            final(it)@ == (ExpressionStatementView {
                start: old(it)@.start,
                expression: hook_call(line as nat, seq![old(it)@.expression]),
            }),
            *final(self) == *old(self),
    {
        self.wrap_whole(it, line);
    }

    fn handle_array_expression(&mut self, it: &mut ExpressionStatement, line: usize)
        requires
            old(it)@.expression is Array,
        ensures
            final(it)@ == (ExpressionStatementView {
                start: old(it)@.start,
                expression: hook_call(line as nat, seq![old(it)@.expression]),
            }),
            *final(self) == *old(self),
    {
        self.wrap_whole(it, line);
    }

    fn handle_parenthesized_expression(&mut self, it: &mut ExpressionStatement, line: usize)
        requires
            old(it)@.expression is Parenthesized,
        ensures
            final(it)@ == (ExpressionStatementView {
                start: old(it)@.start,
                expression: hook_call(line as nat, seq![old(it)@.expression]),
            }),
            *final(self) == *old(self),
    {
        self.wrap_whole(it, line);
    }

    fn handle_binary_expression(&mut self, it: &mut ExpressionStatement, line: usize)
        requires
            old(it)@.expression is Binary,
        ensures
            final(it)@ == (ExpressionStatementView {
                start: old(it)@.start,
                expression: hook_call(line as nat, seq![old(it)@.expression]),
            }),
            *final(self) == *old(self),
    {
        self.wrap_whole(it, line);
    }

    fn handle_logical_expression(&mut self, it: &mut ExpressionStatement, line: usize)
        requires
            old(it)@.expression is Logical,
        ensures
            final(it)@ == (ExpressionStatementView {
                start: old(it)@.start,
                expression: hook_call(line as nat, seq![old(it)@.expression]),
            }),
            *final(self) == *old(self),
    {
        self.wrap_whole(it, line);
    }

    fn handle_boolean_literal(&mut self, it: &mut ExpressionStatement, line: usize)
        requires
            old(it)@.expression is BooleanLiteral,
        ensures
            final(it)@ == (ExpressionStatementView {
                start: old(it)@.start,
                expression: hook_call(line as nat, seq![old(it)@.expression]),
            }),
            *final(self) == *old(self),
    {
        self.wrap_whole(it, line);
    }

    fn handle_string_literal(&mut self, it: &mut ExpressionStatement, line: usize)
        requires
            old(it)@.expression is StringLiteral,
        ensures
            final(it)@ == (ExpressionStatementView {
                start: old(it)@.start,
                expression: hook_call(line as nat, seq![old(it)@.expression]),
            }),
            *final(self) == *old(self),
    {
        self.wrap_whole(it, line);
    }

    fn handle_numeric_literal(&mut self, it: &mut ExpressionStatement, line: usize)
        requires
            old(it)@.expression is NumericLiteral,
        ensures
            final(it)@ == (ExpressionStatementView {
                start: old(it)@.start,
                expression: hook_call(line as nat, seq![old(it)@.expression]),
            }),
            *final(self) == *old(self),
    {
        self.wrap_whole(it, line);
    }

    fn handle_identifier(&mut self, it: &mut ExpressionStatement, line: usize)
        requires
            old(it)@.expression is Identifier,
        ensures
            final(it)@ == (ExpressionStatementView {
                start: old(it)@.start,
                expression: hook_call(line as nat, seq![old(it)@.expression]),
            }),
            *final(self) == *old(self),
    {
        self.wrap_whole(it, line);
    }

    /// Replaces a property access chain by the hook call that reports the
    /// chain's dotted name as text; the chain itself is not evaluated.
    fn handle_static_member_expression(&mut self, it: &mut ExpressionStatement, line: usize)
        requires
            old(it)@.expression is StaticMember,
        ensures
            final(it)@ == (ExpressionStatementView {
                start: old(it)@.start,
                expression: hook_call(
                    line as nat,
                    seq![ExpressionView::StringLiteral { value: dotted_name(old(it)@.expression) }],
                ),
            }),
            *final(self) == *old(self),
    {
        let name = dotted_name_of(&it.expression);
        let mut items: Vec<Expression> = Vec::new();
        items.push(Expression::StringLiteral { value: name });
        assert(expression_views(items@) =~= seq![
            ExpressionView::StringLiteral { value: dotted_name(old(it)@.expression) },
        ]);
        it.expression = self.create_debug_call(line, items);
    }

    /// Replaces a call by its hook call: a call of a property of the
    /// logging object hands its own arguments to the hook; any other call
    /// is handed over whole, so that it still runs exactly once.
    fn handle_call_expression(&mut self, it: &mut ExpressionStatement, line: usize)
        requires
            old(it)@.expression is Call,
        ensures
            final(it)@ == (ExpressionStatementView {
                start: old(it)@.start,
                expression: hook_call(line as nat, payload(old(it)@.expression)->Some_0),
            }),
            *final(self) == *old(self),
    {
        if is_console_call(&it.expression) {
            let mut call = Expression::BooleanLiteral { value: false };
            core::mem::swap(&mut it.expression, &mut call);
            match call {
                Expression::Call { callee, arguments, optional } => {
                    it.expression = self.create_debug_call(line, arguments);
                },
                other => {
                    it.expression = other;
                },
            }
        } else {
            self.wrap_whole(it, line);
        }
    }

    /// Builds the hook call for `line` with the given payload.
    fn create_debug_call(&self, line: usize, additional_args: Vec<Expression>) -> (call:
        Expression)
        ensures
            call@ == hook_call(line as nat, expression_views(additional_args@)),
    {
        let mut args: Vec<Expression> = Vec::new();
        args.push(Expression::NumericLiteral { raw: decimal_text(line as u64) });
        let mut rest = additional_args;
        args.append(&mut rest);
        let call = Expression::Call {
            callee: Box::new(Expression::Identifier { name: String::from_str(HOOK_NAME) }),
            arguments: args,
            optional: false,
        };
        proof {
            reveal_with_fuel(expression_view, 2);
            assert(expression_views(args@) =~= seq![line_literal(line as nat)] + expression_views(
                additional_args@,
            ));
        }
        call
    }

    /// Handles one expression statement: rewrites it according to the kind
    /// of its expression and, unless it has become a hook call, goes on
    /// into the statements nested in it.
    pub fn visit_expression_statement(&mut self, it: &mut ExpressionStatement)
        ensures
            StatementView::Expression(final(it)@) == visited(
                old(self).source(),
                StatementView::Expression(old(it)@),
            ),
            *final(self) == *old(self),
        decreases *old(it), 1nat,
    {
        let line = get_line_number(self.source_text.as_str(), it.start as usize);
        match it.expression {
            Expression::Conditional { .. } => self.handle_conditional_expression(it, line),
            Expression::TemplateLiteral { .. } => self.handle_template_literal_expression(
                it,
                line,
            ),
            Expression::Array { .. } => self.handle_array_expression(it, line),
            Expression::Parenthesized { .. } => self.handle_parenthesized_expression(it, line),
            Expression::Binary { .. } => self.handle_binary_expression(it, line),
            Expression::Logical { .. } => self.handle_logical_expression(it, line),
            Expression::StaticMember { .. } => self.handle_static_member_expression(it, line),
            Expression::BooleanLiteral { .. } => self.handle_boolean_literal(it, line),
            Expression::StringLiteral { .. } => self.handle_string_literal(it, line),
            Expression::NumericLiteral { .. } => self.handle_numeric_literal(it, line),
            Expression::Identifier { .. } => self.handle_identifier(it, line),
            Expression::Call { .. } => self.handle_call_expression(it, line),
            Expression::Other { .. } => {},
        }
        if is_reporting_call(&it.expression) {
            return ;
        }
        self.walk_expression_statement(it);
    }

    /// Goes on into the statements nested in the expression of `it`.
    fn walk_expression_statement(&mut self, it: &mut ExpressionStatement)
        ensures
            final(it)@ == (ExpressionStatementView {
                start: old(it)@.start,
                expression: walked(old(self).source(), old(it)@.expression),
            }),
            *final(self) == *old(self),
        decreases *old(it), 0nat,
    {
        match &mut it.expression {
            Expression::Other { body, .. } => {
                self.visit_statements(body);
            },
            _ => {},
        }
    }

    /// Visits one statement.
    fn visit_statement(&mut self, statement: &mut Statement)
        ensures
            final(statement)@ == visited(old(self).source(), old(statement)@),
            *final(self) == *old(self),
        decreases *old(statement), 2nat,
    {
        match statement {
            Statement::Expression(it) => {
                self.visit_expression_statement(it);
            },
            Statement::Other { body } => {
                self.visit_statements(body);
            },
        }
    }

    /// Visits the statements of a list in turn.
    fn visit_statements(&mut self, statements: &mut Vec<Statement>)
        ensures
            statement_views(final(statements)@) == visited_all(
                old(self).source(),
                statement_views(old(statements)@),
            ),
            *final(self) == *old(self),
        decreases *old(statements), 0nat,
    {
        let mut i: usize = 0;
        while i < statements.len()
            invariant
                i <= statements.len(),
                statements.len() == old(statements).len(),
                *self == *old(self),
                forall|j: int| i <= j < statements.len() ==> statements@[j] == old(statements)@[j],
                forall|j: int|
                    0 <= j < i ==> statements@[j]@ == visited(
                        old(self).source(),
                        old(statements)@[j]@,
                    ),
            decreases statements.len() - i,
        {
            let ghost before = statements@;
            self.visit_statement(&mut statements[i]);
            assert(forall|j: int|
                0 <= j < statements.len() && j != i ==> statements@[j] == before[j]);
            i = i + 1;
        }
        assert(statement_views(statements@) =~= visited_all(
            old(self).source(),
            statement_views(old(statements)@),
        ));
    }
}

} // verus!
