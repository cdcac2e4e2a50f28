//! What an engine has to show of itself, as text: its procedures, its
//! symbol table, its queues, its blocked procedures and its variables.

use std::collections::VecDeque;
use vstd::prelude::*;
use vstd::string::*;
use crate::engine::{procedure_views, Engine};
use crate::model::prior_value;
use crate::procedure::{names, statement_views, ProcedureView, Statement, StatementView, Value};
use crate::text::{concatenated, decimal, decimal_text};
use crate::waiting::{Waiter, WaiterView};

verus! {

/// The line that rules off a table.
pub const RULE: &'static str = "--------------------------------------\n";

/// A table: its title on a line of its own, behind an empty line; its lines
/// between two rules; an empty line.
pub open spec fn framed(title: Seq<char>, lines: Seq<Seq<char>>) -> Seq<char> {
    "\n"@ + title + "\n"@ + RULE@ + concatenated(lines) + RULE@ + "\n"@
}

/// The line of a statement in a table of statements.
pub open spec fn statement_line(stmt: StatementView) -> Seq<char> {
    " "@ + stmt.text() + "\n"@
}

/// The line of a registration in the table of blocked procedures.
pub open spec fn waiter_line(waiter: WaiterView) -> Seq<char> {
    " "@ + waiter.edge.text() + " -> "@ + decimal(waiter.proc_id as nat) + "\n"@
}

/// The line of a variable in the table of variables.
pub open spec fn identifier_line(name: Seq<char>) -> Seq<char> {
    " "@ + name + "\n"@
}

/// The line of a variable in the symbol table, if it has a value; else nothing.
pub open spec fn symbol_line(store: Map<Seq<char>, Value>, name: Seq<char>) -> Seq<char> {
    match prior_value(store, name) {
        Some(value) => " "@ + name + " = "@ + decimal(value as nat) + "\n"@,
        None => Seq::empty(),
    }
}

/// What is shown of the procedure at place `i`.
pub open spec fn procedure_block(i: int, procedure: ProcedureView) -> Seq<char> {
    "\nProcedure "@ + decimal(i as nat) + "\n"@ + procedure.text()
}

/// What is shown of the first `n` procedures.
pub open spec fn procedure_blocks(procedures: Seq<ProcedureView>, n: nat) -> Seq<char>
    decreases n,
{
    if n == 0 {
        Seq::empty()
    } else {
        procedure_blocks(procedures, (n - 1) as nat) + procedure_block(n - 1, procedures[n - 1])
    }
}

/// Frames the lines as a table under the title.
fn framed_text(title: &str, lines: &Vec<String>) -> (text: String)
    ensures
        text@ == framed(title@, names(lines@)),
{
    let ghost parts = names(lines@);
    let mut body = String::new();
    let mut i: usize = 0;
    while i < lines.len()
        invariant
            i <= lines.len(),
            parts == names(lines@),
            body@ == concatenated(parts.take(i as int)),
        decreases lines.len() - i,
    {
        assert(parts.take(i + 1).drop_last() =~= parts.take(i as int));
        body.append(lines[i].as_str());
        i += 1;
    }
    assert(parts.take(i as int) =~= parts);
    let mut text = "\n".to_string();
    text.append(title);
    text.append("\n");
    text.append(RULE);
    text.append(body.as_str());
    text.append(RULE);
    text.append("\n");
    text
}

/// The lines of a queue of statements, the oldest first.
fn statement_lines(queue: &VecDeque<Statement>) -> (lines: Vec<String>)
    ensures
        names(lines@) == statement_views(queue@).map_values(
            |stmt: StatementView| statement_line(stmt),
        ),
{
    let mut lines: Vec<String> = Vec::new();
    let mut i: usize = 0;
    while i < queue.len()
        invariant
            i <= queue.len(),
            lines.len() == i,
            forall|k: int| 0 <= k < i ==> lines[k]@ == statement_line(queue@[k]@),
        decreases queue.len() - i,
    {
        let mut line = " ".to_string();
        line.append(queue[i].to_string().as_str());
        line.append("\n");
        lines.push(line);
        i += 1;
    }
    lines
}

impl Engine {
    /// The procedures: each under its number, with its kind and its statements.
    pub fn show_proc(&self) -> (text: String)
        ensures
            text@ == procedure_blocks(self@.procedures, self@.procedures.len()),
    {
        let procedures = self.procedures();
        let mut text = String::new();
        let mut i: usize = 0;
        while i < procedures.len()
            invariant
                i <= procedures.len(),
                procedure_views(procedures@) == self@.procedures,
                text@ == procedure_blocks(self@.procedures, i as nat),
            decreases procedures.len() - i,
        {
            text.append("\nProcedure ");
            text.append(decimal_text(i).as_str());
            text.append("\n");
            text.append(procedures[i].show().as_str());
            i += 1;
        }
        text
    }

    /// The symbol table: each variable of the design that has a value, with
    /// that value, in the order of the variables.
    pub fn show_symtable(&self) -> (text: String)
        ensures
            text@ == framed(
                "Symbol Table"@,
                self@.vars.map_values(|name: Seq<char>| symbol_line(self@.store, name)),
            ),
    {
        let vars = self.identifiers();
        let mut lines: Vec<String> = Vec::new();
        let mut i: usize = 0;
        while i < vars.len()
            invariant
                i <= vars.len(),
                names(vars@) == self@.vars,
                lines.len() == i,
                forall|k: int| 0 <= k < i ==> lines[k]@ == symbol_line(self@.store, vars[k]@),
            decreases vars.len() - i,
        {
            let mut line = String::new();
            match self.value_of(vars[i].as_str()) {
                Some(value) => {
                    line.append(" ");
                    line.append(vars[i].as_str());
                    line.append(" = ");
                    line.append(decimal_text(value).as_str());
                    line.append("\n");
                },
                None => {},
            }
            lines.push(line);
            i += 1;
        }
        assert(names(lines@) =~= self@.vars.map_values(
            |name: Seq<char>| symbol_line(self@.store, name),
        ));
        framed_text("Symbol Table", &lines)
    }

    /// The two queues, each with its statements, the oldest first.
    pub fn show_queues(&self) -> (text: String)
        ensures
            text@ == framed(
                "Active Queue"@,
                self@.active.map_values(|stmt: StatementView| statement_line(stmt)),
            ) + framed(
                "Nonblocking Assignment Queue"@,
                self@.deferred.map_values(|stmt: StatementView| statement_line(stmt)),
            ),
    {
        let mut text = framed_text("Active Queue", &statement_lines(self.active_queue()));
        text.append(
            framed_text(
                "Nonblocking Assignment Queue",
                &statement_lines(self.deferred_queue()),
            ).as_str(),
        );
        text
    }

    /// The blocked procedures: each registration with its edge and its
    /// procedure, in the order in which they were made.
    pub fn show_blocked_pids(&self) -> (text: String)
        ensures
            text@ == framed(
                "Blocked Procedures"@,
                self@.waiting.map_values(|waiter: WaiterView| waiter_line(waiter)),
            ),
    {
        let waiters = self.wait_table().waiters();
        let mut lines: Vec<String> = Vec::new();
        let mut i: usize = 0;
        while i < waiters.len()
            invariant
                i <= waiters.len(),
                waiters@.map_values(|waiter: Waiter| waiter@) == self@.waiting,
                lines.len() == i,
                forall|k: int| 0 <= k < i ==> lines[k]@ == waiter_line(waiters[k]@),
            decreases waiters.len() - i,
        {
            let mut line = " ".to_string();
            line.append(waiters[i].edge.to_string().as_str());
            line.append(" -> ");
            line.append(decimal_text(waiters[i].proc_id).as_str());
            line.append("\n");
            lines.push(line);
            i += 1;
        }
        assert(names(lines@) =~= self@.waiting.map_values(
            |waiter: WaiterView| waiter_line(waiter),
        ));
        framed_text("Blocked Procedures", &lines)
    }

    /// The variables of the design, in the order of their first occurrence.
    pub fn show_identifiers(&self) -> (text: String)
        ensures
            text@ == framed(
                "Identifiers"@,
                self@.vars.map_values(|name: Seq<char>| identifier_line(name)),
            ),
    {
        let vars = self.identifiers();
        let mut lines: Vec<String> = Vec::new();
        let mut i: usize = 0;
        while i < vars.len()
            invariant
                i <= vars.len(),
                names(vars@) == self@.vars,
                lines.len() == i,
                forall|k: int| 0 <= k < i ==> lines[k]@ == identifier_line(vars[k]@),
            decreases vars.len() - i,
        {
            let mut line = " ".to_string();
            line.append(vars[i].as_str());
            line.append("\n");
            lines.push(line);
            i += 1;
        }
        assert(names(lines@) =~= self@.vars.map_values(|name: Seq<char>| identifier_line(name)));
        framed_text("Identifiers", &lines)
    }
}

} // verus!
