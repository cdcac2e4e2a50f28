//! The text of a value change dump: the header, the declarations of the
//! variables and the values of a snapshot. Writing the text to a file is left
//! to the caller.

use vstd::prelude::*;
use vstd::hash_map::StringHashMap;
use vstd::string::*;
use crate::engine::Snapshot;
use crate::procedure::{names, Value};
use crate::text::{binary, binary_text, decimal, decimal_text};

verus! {

/// The most variables that a dump declares.
pub const MAX_VARS: usize = 33;

/// What opens a dump.
pub const HEADER: &'static str =
    "$date\n   Date text. For example: November 11, 2009.\n$end\n$version\n   Tiny Verilog (Rust)\n$end\n$comment\n   Any comment text.\n$end\n$timescale 1ps $end\n$scope module logic $end\n";

/// What closes the declarations.
pub const TURNAROUND: &'static str = "$upscope $end\n$enddefinitions $end\n$dumpvars\n$end\n";

/// The short names of the variables, one character each, from `#` on.
pub const SHORT_NAMES: &'static str = "#$%&'()*+,-./0123456789:;<=>?@ABC";

/// The short name of the variable declared at place `i`: the character `i`
/// places after `#`.
pub open spec fn short_name(i: nat) -> Seq<char> {
    seq![(35 + i) as char]
}

/// The line that declares the variable at place `i`.
pub open spec fn declaration(i: nat, name: Seq<char>) -> Seq<char> {
    "$var wire 32 "@ + short_name(i) + " "@ + name + " $end\n"@
}

/// The lines that declare the first `n` variables.
pub open spec fn declarations(vars: Seq<Seq<char>>, n: nat) -> Seq<char>
    decreases n,
{
    if n == 0 {
        Seq::empty()
    } else {
        declarations(vars, (n - 1) as nat) + declaration((n - 1) as nat, vars[n - 1])
    }
}

/// The short names after the first `n` variables were declared.
pub open spec fn declared(
    lut: Map<Seq<char>, Seq<char>>,
    vars: Seq<Seq<char>>,
    n: nat,
) -> Map<Seq<char>, Seq<char>>
    decreases n,
{
    if n == 0 {
        lut
    } else {
        declared(lut, vars, (n - 1) as nat).insert(vars[n - 1], short_name((n - 1) as nat))
    }
}

/// How many of `count` variables a dump declares.
pub open spec fn declared_count(count: nat) -> nat {
    if count < MAX_VARS {
        count
    } else {
        MAX_VARS as nat
    }
}

/// The line that gives a value to a variable, if the variable was declared
/// and has a value; else nothing.
pub open spec fn change(
    lut: Map<Seq<char>, Seq<char>>,
    name: Seq<char>,
    value: Option<Value>,
) -> Seq<char> {
    match value {
        Some(v) if lut.contains_key(name) => "b"@ + binary(v as nat) + " "@ + lut[name] + "\n"@,
        _ => Seq::empty(),
    }
}

/// The value at place `i`, if there is one.
pub open spec fn value_at(values: Seq<Option<Value>>, i: int) -> Option<Value> {
    if 0 <= i < values.len() {
        values[i]
    } else {
        None
    }
}

/// The lines that give their values to the first `n` variables.
pub open spec fn changes(
    lut: Map<Seq<char>, Seq<char>>,
    vars: Seq<Seq<char>>,
    values: Seq<Option<Value>>,
    n: nat,
) -> Seq<char>
    decreases n,
{
    if n == 0 {
        Seq::empty()
    } else {
        changes(lut, vars, values, (n - 1) as nat) + change(
            lut,
            vars[n - 1],
            value_at(values, n - 1),
        )
    }
}

/// The short names that a dump has given to the variables it declared.
pub struct VcdWriter {
    lut: StringHashMap<String>,
}

impl View for VcdWriter {
    type V = Map<Seq<char>, Seq<char>>;

    closed spec fn view(&self) -> Map<Seq<char>, Seq<char>> {
        Map::new(|name: Seq<char>| self.lut@.contains_key(name), |name: Seq<char>| self.lut@[name]@)
    }
}

/// The text of the short name at place `i`.
fn short_name_text(i: usize) -> (text: &'static str)
    requires
        i < MAX_VARS,
    ensures
        text@ == short_name(i as nat),
{
    proof {
        reveal_strlit("#$%&'()*+,-./0123456789:;<=>?@ABC");
    }
    let text = SHORT_NAMES.substring_ascii(i, i + 1);
    text
}

impl VcdWriter {
    /// A writer that has declared no variable.
    pub fn new() -> (writer: VcdWriter)
        ensures
            writer@ == Map::<Seq<char>, Seq<char>>::empty(),
    {
        let writer = VcdWriter { lut: StringHashMap::new() };
        writer
    }

    /// The text that opens a dump.
    pub fn write_header(&self) -> (text: String)
        ensures
            text@ == HEADER@,
    {
        HEADER.to_string()
    }

    /// Gives a short name to each variable, up to [`MAX_VARS`] of them, and
    /// returns the lines that declare them. Where every variable of the list
    /// found its place below that bound, the text that closes the
    /// declarations follows.
    pub fn declare_vars(&mut self, vars: &Vec<String>) -> (text: String)
        ensures
            final(self)@ == declared(
                old(self)@,
                names(vars@),
                declared_count(vars.len() as nat),
            ),
            text@ == declarations(names(vars@), declared_count(vars.len() as nat)) + if vars.len()
                < MAX_VARS {
                TURNAROUND@
            } else {
                Seq::empty()
            },
    {
        let mut text = String::new();
        let mut i: usize = 0;
        while i < vars.len()
            invariant
                i <= vars.len(),
                i < MAX_VARS,
                self@ == declared(old(self)@, names(vars@), i as nat),
                text@ == declarations(names(vars@), i as nat),
            decreases vars.len() - i,
        {
            let id = short_name_text(i);
            self.lut.insert(vars[i].clone(), id.to_string());
            text.append("$var wire 32 ");
            text.append(id);
            text.append(" ");
            text.append(vars[i].as_str());
            text.append(" $end\n");
            i += 1;
            if i > 32 {
                return text;
            }
        }
        text.append(TURNAROUND);
        text
    }

    /// The text of a snapshot: the time, then a line for each variable of the
    /// list that was declared and has a value in the snapshot.
    pub fn dump(&self, vars: &Vec<String>, snapshot: &Snapshot) -> (text: String)
        ensures
            text@ == "\n#"@ + decimal(snapshot.time as nat) + "\n"@ + changes(
                self@,
                names(vars@),
                snapshot.values@,
                vars.len() as nat,
            ),
    {
        let mut text = "\n#".to_string();
        text.append(decimal_text(snapshot.time).as_str());
        text.append("\n");
        let ghost head = text@;
        let mut i: usize = 0;
        while i < vars.len()
            invariant
                i <= vars.len(),
                head == "\n#"@ + decimal(snapshot.time as nat) + "\n"@,
                text@ == head + changes(self@, names(vars@), snapshot.values@, i as nat),
            decreases vars.len() - i,
        {
            let value = if i < snapshot.values.len() {
                snapshot.values[i]
            } else {
                None
            };
            match (self.lut.get(vars[i].as_str()), value) {
                (Some(id), Some(v)) => {
                    text.append("b");
                    text.append(binary_text(v).as_str());
                    text.append(" ");
                    text.append(id.as_str());
                    text.append("\n");
                },
                _ => {},
            }
            i += 1;
        }
        text
    }
}

} // verus!
