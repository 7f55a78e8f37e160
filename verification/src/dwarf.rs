//! A plain-data model of the debug-information index: the address/line table,
//! the function symbols, the source files and the variable records that the
//! external DWARF loader supplies, together with the lookups the controller
//! performs on them.

use vstd::prelude::*;

use crate::strutil::str_eq_string;

verus! {

/// One row of the line table: the lowest code address of a source line.
pub struct LineRow {
    pub addr: usize,
    pub file: String,
    pub number: usize,
}

/// One function symbol: name, declaring file and line, entry address.
pub struct FunctionSym {
    pub name: String,
    pub file: String,
    pub line_number: usize,
    pub addr: usize,
}

/// Where a variable lives: at an absolute address, or at a signed offset from
/// the frame base (the canonical frame address is `rbp + 16` on x86-64).
pub enum VarLocation {
    Absolute(usize),
    FrameBaseOffset(i64),
}

/// One variable record with its scope as a code-address range.
pub struct Variable {
    pub name: String,
    pub ty_name: String,
    pub size: usize,
    pub location: VarLocation,
    pub scope_lo: usize,
    pub scope_hi: usize,
}

/// The loaded debug information, as plain values.
pub struct DebugInfo {
    pub files: Vec<String>,
    pub functions: Vec<FunctionSym>,
    pub lines: Vec<LineRow>,
    pub variables: Vec<Variable>,
}

/// Index of the first row at or after `from` whose line number is `number`.
pub open spec fn first_line_with(rows: Seq<LineRow>, number: usize, from: int) -> Option<int>
    decreases rows.len() - from,
{
    if from < 0 || from >= rows.len() {
        None
    } else if rows[from].number == number {
        Some(from)
    } else {
        first_line_with(rows, number, from + 1)
    }
}

/// Index of the last row below `below` whose address is at or below `pc`.
pub open spec fn last_line_le(rows: Seq<LineRow>, pc: usize, below: int) -> Option<int>
    decreases below,
{
    if below <= 0 || below > rows.len() {
        None
    } else if rows[below - 1].addr <= pc {
        Some(below - 1)
    } else {
        last_line_le(rows, pc, below - 1)
    }
}

/// Index of the first function at or after `from` whose name is `name`.
pub open spec fn first_func_named(fs: Seq<FunctionSym>, name: Seq<char>, from: int) -> Option<int>
    decreases fs.len() - from,
{
    if from < 0 || from >= fs.len() {
        None
    } else if fs[from].name@ == name {
        Some(from)
    } else {
        first_func_named(fs, name, from + 1)
    }
}

/// Index of the last function below `below` whose entry address is at or
/// below `pc`.
pub open spec fn last_func_le(fs: Seq<FunctionSym>, pc: usize, below: int) -> Option<int>
    decreases below,
{
    if below <= 0 || below > fs.len() {
        None
    } else if fs[below - 1].addr <= pc {
        Some(below - 1)
    } else {
        last_func_le(fs, pc, below - 1)
    }
}

/// A variable record is in scope at `pc` under the given name.
pub open spec fn var_matches(v: Variable, pc: usize, name: Seq<char>) -> bool {
    v.scope_lo <= pc < v.scope_hi && v.name@ == name
}

/// Index of the first variable at or after `from` in scope at `pc` under the
/// given name.
pub open spec fn first_var_in_scope(vs: Seq<Variable>, pc: usize, name: Seq<char>, from: int) -> Option<int>
    decreases vs.len() - from,
{
    if from < 0 || from >= vs.len() {
        None
    } else if var_matches(vs[from], pc, name) {
        Some(from)
    } else {
        first_var_in_scope(vs, pc, name, from + 1)
    }
}

impl DebugInfo {
    pub fn new() -> (r: DebugInfo)
        ensures
            r.files@.len() == 0,
            r.functions@.len() == 0,
            r.lines@.len() == 0,
            r.variables@.len() == 0,
    {
        DebugInfo { files: Vec::new(), functions: Vec::new(), lines: Vec::new(), variables: Vec::new() }
    }

    /// Lowest code address of the given source line, if the line table knows
    /// the line.
    pub fn addr_for_line(&self, number: usize) -> (r: Option<usize>)
        ensures
            r == match first_line_with(self.lines@, number, 0) {
                Some(i) => Some(self.lines@[i].addr),
                None => None::<usize>,
            },
    {
        let n = self.lines.len();
        let mut i: usize = 0;
        while i < n
            invariant
                i <= n,
                n == self.lines@.len(),
                first_line_with(self.lines@, number, 0) == first_line_with(
                    self.lines@,
                    number,
                    i as int,
                ),
            decreases n - i,
        {
            if self.lines[i].number == number {
                return Some(self.lines[i].addr);
            }
            i += 1;
        }
        None
    }

    /// The line record covering `pc`: the last row whose address is at or
    /// below `pc`.
    pub fn line_from_addr(&self, pc: usize) -> (r: Option<&LineRow>)
        ensures
            match last_line_le(self.lines@, pc, self.lines@.len() as int) {
                Some(i) => r is Some && *r->0 == self.lines@[i],
                None => r is None,
            },
    {
        let mut i: usize = self.lines.len();
        while i > 0
            invariant
                i <= self.lines@.len(),
                last_line_le(self.lines@, pc, self.lines@.len() as int) == last_line_le(
                    self.lines@,
                    pc,
                    i as int,
                ),
            decreases i,
        {
            if self.lines[i - 1].addr <= pc {
                return Some(&self.lines[i - 1]);
            }
            i -= 1;
        }
        None
    }

    /// Entry address of the function with the given name.
    pub fn addr_for_function(&self, name: &str) -> (r: Option<usize>)
        ensures
            r == match first_func_named(self.functions@, name@, 0) {
                Some(i) => Some(self.functions@[i].addr),
                None => None::<usize>,
            },
    {
        let n = self.functions.len();
        let mut i: usize = 0;
        while i < n
            invariant
                i <= n,
                n == self.functions@.len(),
                first_func_named(self.functions@, name@, 0) == first_func_named(
                    self.functions@,
                    name@,
                    i as int,
                ),
            decreases n - i,
        {
            if str_eq_string(name, &self.functions[i].name) {
                return Some(self.functions[i].addr);
            }
            i += 1;
        }
        None
    }

    /// The function whose body covers `pc`: the last symbol whose entry
    /// address is at or below `pc`.
    pub fn function_from_addr(&self, pc: usize) -> (r: Option<&FunctionSym>)
        ensures
            match last_func_le(self.functions@, pc, self.functions@.len() as int) {
                Some(i) => r is Some && *r->0 == self.functions@[i],
                None => r is None,
            },
    {
        let mut i: usize = self.functions.len();
        while i > 0
            invariant
                i <= self.functions@.len(),
                last_func_le(self.functions@, pc, self.functions@.len() as int) == last_func_le(
                    self.functions@,
                    pc,
                    i as int,
                ),
            decreases i,
        {
            if self.functions[i - 1].addr <= pc {
                return Some(&self.functions[i - 1]);
            }
            i -= 1;
        }
        None
    }

    /// The first variable record in scope at `pc` under the given name.
    pub fn variable_in_scope(&self, pc: usize, name: &str) -> (r: Option<&Variable>)
        ensures
            match first_var_in_scope(self.variables@, pc, name@, 0) {
                Some(i) => r is Some && *r->0 == self.variables@[i],
                None => r is None,
            },
    {
        let n = self.variables.len();
        let mut i: usize = 0;
        while i < n
            invariant
                i <= n,
                n == self.variables@.len(),
                first_var_in_scope(self.variables@, pc, name@, 0) == first_var_in_scope(
                    self.variables@,
                    pc,
                    name@,
                    i as int,
                ),
            decreases n - i,
        {
            let v = &self.variables[i];
            if v.scope_lo <= pc && pc < v.scope_hi && str_eq_string(name, &v.name) {
                return Some(&self.variables[i]);
            }
            i += 1;
        }
        None
    }
}

/// Effective address of a frame-base-relative variable: `rbp + 16 + offset`
/// in machine-word arithmetic.
pub open spec fn spec_frame_addr(rbp: u64, off: i64) -> u64 {
    vstd::wrapping::u64_specs::wrapping_add_signed(
        vstd::wrapping::u64_specs::wrapping_add(rbp, 16),
        off,
    )
}

/// Resolve a variable location to the address to read, given the frame
/// pointer of the stopped inferior.
pub fn resolve_location(loc: &VarLocation, rbp: u64) -> (r: usize)
    ensures
        match *loc {
            VarLocation::Absolute(a) => r == a,
            VarLocation::FrameBaseOffset(k) => r == spec_frame_addr(rbp, k) as usize,
        },
{
    match loc {
        VarLocation::Absolute(a) => *a,
        VarLocation::FrameBaseOffset(k) => rbp.wrapping_add(16).wrapping_add_signed(*k) as usize,
    }
}

/// The value a variable presents, given the machine word read at its address:
/// sizes of one, two and four bytes are zero-extended from the word's low
/// bytes; any other size presents the whole word.
pub open spec fn spec_masked(value: u64, size: usize) -> u64 {
    if size == 1 {
        value & 0xff
    } else if size == 2 {
        value & 0xffff
    } else if size == 4 {
        value & 0xffff_ffff
    } else {
        value
    }
}

/// Mask a read machine word down to the variable's declared size.
pub fn mask_to_size(value: u64, size: usize) -> (r: u64)
    ensures
        r == spec_masked(value, size),
{
    if size == 1 {
        value & 0xff
    } else if size == 2 {
        value & 0xffff
    } else if size == 4 {
        value & 0xffff_ffff
    } else {
        value
    }
}

} // verus!
