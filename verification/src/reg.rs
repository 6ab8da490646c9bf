//! The preview of a regular file: the lines that the previewer wrote.

use vstd::prelude::*;
use vstd::string::*;

verus! {

/// The preview of a file.
#[derive(Debug)]
pub struct Reg {
    pub path: String,
    pub lines: Vec<String>,
    /// The second of the last load; zero before the first.
    pub loadtime: u64,
}

impl Reg {
    /// The preview of `p` before its first load.
    pub fn new(p: &str) -> (r: Reg)
        ensures
            r.path@ == p@,
            r.lines@.len() == 0,
            r.loadtime == 0,
    {
        Reg { path: String::from_str(p), lines: Vec::new(), loadtime: 0 }
    }

    /// Takes in the lines that the previewer wrote at the second `now`.
    /// Where it wrote none, one line in reverse video says that the file is
    /// binary.
    pub fn update(&mut self, lines: Vec<String>, now: u64)
        ensures
            final(self).path == old(self).path,
            final(self).loadtime == now,
            lines@.len() > 0 ==> final(self).lines == lines,
            lines@.len() == 0 ==> final(self).lines@.len() == 1 && final(self).lines@[0]@
                == "\x1b[7mbinary\x1b[0m"@,
    {
        self.lines = lines;
        if self.lines.len() == 0 {
            self.lines.push(String::from_str("\x1b[7mbinary\x1b[0m"));
        }
        self.loadtime = now;
    }
}

} // verus!
