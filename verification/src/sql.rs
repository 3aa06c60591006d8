//! SQL statements with their bind arguments, and the statements of the
//! catalogue's schema.

use vstd::prelude::*;

verus! {

/// A bind argument.
pub enum Value {
    Int(i64),
    Text(String),
}

pub enum ValueView {
    Int(i64),
    Text(Seq<char>),
}

impl View for Value {
    type V = ValueView;

    open spec fn view(&self) -> ValueView {
        match self {
            Value::Int(n) => ValueView::Int(*n),
            Value::Text(s) => ValueView::Text(s@),
        }
    }
}

/// A statement: its text, with a `?` for each bind argument, and the
/// arguments in order.
pub struct Statement {
    pub sql: String,
    pub binds: Vec<Value>,
}

pub struct StatementView {
    pub sql: Seq<char>,
    pub binds: Seq<ValueView>,
}

/// The views of a sequence of bind arguments.
pub open spec fn value_views(v: Seq<Value>) -> Seq<ValueView> {
    v.map_values(|x: Value| x@)
}

impl View for Statement {
    type V = StatementView;

    open spec fn view(&self) -> StatementView {
        StatementView { sql: self.sql@, binds: value_views(self.binds@) }
    }
}

/// The statement `sql` with no argument.
pub open spec fn plain(sql: Seq<char>) -> StatementView {
    StatementView { sql, binds: Seq::empty() }
}

/// The statement `sql` with one argument.
pub open spec fn with_one(sql: Seq<char>, a: ValueView) -> StatementView {
    StatementView { sql, binds: seq![a] }
}

/// The statement `sql` with two arguments.
pub open spec fn with_two(sql: Seq<char>, a: ValueView, b: ValueView) -> StatementView {
    StatementView { sql, binds: seq![a, b] }
}

/// A statement without arguments.
pub fn statement(sql: &str) -> (st: Statement)
    ensures
        st@ == plain(sql@),
{
    let st = Statement { sql: sql.to_owned(), binds: Vec::new() };
    assert(st@.binds =~= Seq::<ValueView>::empty());
    st
}

/// A statement with one argument.
pub fn statement_with_one(sql: &str, a: Value) -> (st: Statement)
    ensures
        st@ == with_one(sql@, a@),
{
    let mut binds: Vec<Value> = Vec::new();
    binds.push(a);
    let st = Statement { sql: sql.to_owned(), binds };
    assert(st@.binds =~= seq![a@]);
    st
}

/// A statement with two arguments.
pub fn statement_with_two(sql: &str, a: Value, b: Value) -> (st: Statement)
    ensures
        st@ == with_two(sql@, a@, b@),
{
    let mut binds: Vec<Value> = Vec::new();
    binds.push(a);
    binds.push(b);
    let st = Statement { sql: sql.to_owned(), binds };
    assert(st@.binds =~= seq![a@, b@]);
    st
}

} // verus!
