//! Symbol data of the program being debugged: which function and which
//! source line an address belongs to, and where a line or a function
//! starts. The data is held as two plain tables, in the order in which it
//! was loaded.

use vstd::prelude::*;

verus! {

/// A function of the program: its name and the addresses its code takes.
#[derive(Clone, Debug, PartialEq, Eq)]
pub struct FunctionSymbol {
    pub name: String,
    pub address: usize,
    pub length: usize,
}

/// A row of the line table: the code of source line `number` of `file`
/// starts at `address`.
#[derive(Clone, Debug, PartialEq, Eq)]
pub struct LineSymbol {
    pub file: String,
    pub number: usize,
    pub address: usize,
}

/// A place in the source text.
#[derive(Clone, Debug, PartialEq, Eq)]
pub struct Line {
    pub file: String,
    pub number: usize,
}

/// The symbol data of one program.
#[derive(Clone, Debug, PartialEq, Eq)]
pub struct SymbolTable {
    pub functions: Vec<FunctionSymbol>,
    pub lines: Vec<LineSymbol>,
}

/// Whether `addr` lies in the code of `function`.
pub open spec fn covers(function: FunctionSymbol, addr: usize) -> bool {
    function.address <= addr < function.address + function.length
}

/// The index of the first function at or after `from` whose code holds
/// `addr`.
pub open spec fn function_index(functions: Seq<FunctionSymbol>, addr: usize, from: int) -> Option<
    int,
>
    decreases functions.len() - from,
{
    if from < 0 || from >= functions.len() {
        None
    } else if covers(functions[from], addr) {
        Some(from)
    } else {
        function_index(functions, addr, from + 1)
    }
}

/// The index of the first function at or after `from` that is called
/// `name`.
pub open spec fn named_index(functions: Seq<FunctionSymbol>, name: Seq<char>, from: int) -> Option<
    int,
>
    decreases functions.len() - from,
{
    if from < 0 || from >= functions.len() {
        None
    } else if functions[from].name@ == name {
        Some(from)
    } else {
        named_index(functions, name, from + 1)
    }
}

/// Among the first `upto` rows, the index of the row that starts closest
/// below or at `addr`; of several rows with that start, the first.
pub open spec fn row_index(rows: Seq<LineSymbol>, addr: usize, upto: int) -> Option<int>
    decreases upto,
{
    if upto <= 0 || upto > rows.len() {
        None
    } else {
        let earlier = row_index(rows, addr, upto - 1);
        let row = rows[upto - 1];
        if row.address <= addr && (earlier matches Some(e) ==> rows[e].address < row.address) {
            Some(upto - 1)
        } else {
            earlier
        }
    }
}

/// The index of the first row at or after `from` for a line numbered
/// `number` or higher.
pub open spec fn line_index(rows: Seq<LineSymbol>, number: usize, from: int) -> Option<int>
    decreases rows.len() - from,
{
    if from < 0 || from >= rows.len() {
        None
    } else if rows[from].number >= number {
        Some(from)
    } else {
        line_index(rows, number, from + 1)
    }
}

impl SymbolTable {
    /// The name of the function whose code holds `addr`.
    pub open spec fn function_name_at(&self, addr: usize) -> Option<Seq<char>> {
        match function_index(self.functions@, addr, 0) {
            Some(i) => Some(self.functions@[i].name@),
            None => None,
        }
    }

    /// The file and number of the source line whose code holds `addr`.
    pub open spec fn source_line_at(&self, addr: usize) -> Option<(Seq<char>, usize)> {
        match row_index(self.lines@, addr, self.lines@.len() as int) {
            Some(i) => Some((self.lines@[i].file@, self.lines@[i].number)),
            None => None,
        }
    }

    /// Where the code of line `number`, or of the next line that has
    /// code, starts.
    pub open spec fn line_address(&self, number: usize) -> Option<usize> {
        match line_index(self.lines@, number, 0) {
            Some(i) => Some(self.lines@[i].address),
            None => None,
        }
    }

    /// Where the code of the function called `name` starts.
    pub open spec fn function_address(&self, name: Seq<char>) -> Option<usize> {
        match named_index(self.functions@, name, 0) {
            Some(i) => Some(self.functions@[i].address),
            None => None,
        }
    }

    /// A table of the given functions and line rows.
    pub fn new(functions: Vec<FunctionSymbol>, lines: Vec<LineSymbol>) -> (table: SymbolTable)
        ensures
            table.functions == functions,
            table.lines == lines,
    {
        SymbolTable { functions, lines }
    }

    /// Resolves `addr` to the name of the function that holds it: the
    /// first function of the table whose code range holds `addr`.
    pub fn function_at(&self, addr: usize) -> (name: Option<String>)
        ensures
            name is Some <==> self.function_name_at(addr) is Some,
            name matches Some(n) ==> self.function_name_at(addr) == Some(n@),
    {
        let mut i: usize = 0;
        while i < self.functions.len()
            invariant
                i <= self.functions.len(),
                function_index(self.functions@, addr, 0) == function_index(
                    self.functions@,
                    addr,
                    i as int,
                ),
            decreases self.functions.len() - i,
        {
            let function = &self.functions[i];
            if function.address <= addr && addr - function.address < function.length {
                return Some(function.name.clone());
            }
            i += 1;
        }
        None
    }

    /// Resolves `addr` to a source line: the row of the line table that
    /// starts closest below or at `addr`.
    pub fn line_at(&self, addr: usize) -> (line: Option<Line>)
        ensures
            line is Some <==> self.source_line_at(addr) is Some,
            line matches Some(l) ==> self.source_line_at(addr) == Some((l.file@, l.number)),
    {
        let mut best: Option<usize> = None;
        let mut i: usize = 0;
        while i < self.lines.len()
            invariant
                i <= self.lines.len(),
                best matches Some(b) ==> b < i,
                row_index(self.lines@, addr, i as int) == match best {
                    Some(b) => Some(b as int),
                    None => None,
                },
            decreases self.lines.len() - i,
        {
            let row = &self.lines[i];
            if row.address <= addr {
                let closer = match best {
                    Some(b) => self.lines[b].address < row.address,
                    None => true,
                };
                if closer {
                    best = Some(i);
                }
            }
            i += 1;
        }
        match best {
            Some(b) => Some(Line { file: self.lines[b].file.clone(), number: self.lines[b].number }),
            None => None,
        }
    }

    /// Resolves a line number to the address where its code starts: the
    /// address of the first row for that line or a later one.
    pub fn address_for_line(&self, number: usize) -> (addr: Option<usize>)
        ensures
            addr == self.line_address(number),
    {
        let mut i: usize = 0;
        while i < self.lines.len()
            invariant
                i <= self.lines.len(),
                line_index(self.lines@, number, 0) == line_index(self.lines@, number, i as int),
            decreases self.lines.len() - i,
        {
            if self.lines[i].number >= number {
                return Some(self.lines[i].address);
            }
            i += 1;
        }
        None
    }

    /// Resolves a function name to the address where its code starts:
    /// the address of the first function of that name.
    pub fn address_for_function(&self, name: &str) -> (addr: Option<usize>)
        ensures
            addr == self.function_address(name@),
    {
        let wanted = name.to_owned();
        let mut i: usize = 0;
        while i < self.functions.len()
            invariant
                i <= self.functions.len(),
                wanted@ == name@,
                named_index(self.functions@, name@, 0) == named_index(
                    self.functions@,
                    name@,
                    i as int,
                ),
            decreases self.functions.len() - i,
        {
            if self.functions[i].name == wanted {
                return Some(self.functions[i].address);
            }
            i += 1;
        }
        None
    }
}

} // verus!
