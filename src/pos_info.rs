use std::rc::Rc;

use vstd::prelude::*;

use crate::source_file::SourceFile;

verus! {

/// What a position means to a reader: its file, 1-based line and column, and
/// 0-based display column.
#[derive(Clone, PartialEq, Eq)]
pub struct PosInfo {
    file: Rc<SourceFile>,
    /// The 1-based line number.
    line: usize,
    /// The 1-based column, in characters.
    col: usize,
    /// The 0-based column on screen.
    col_display: usize,
}

impl PosInfo {
    pub closed spec fn spec_file(&self) -> SourceFile {
        *self.file
    }

    pub closed spec fn spec_line(&self) -> int {
        self.line as int
    }

    pub closed spec fn spec_col(&self) -> int {
        self.col as int
    }

    pub closed spec fn spec_col_display(&self) -> int {
        self.col_display as int
    }

    pub fn new(file: Rc<SourceFile>, line: usize, col: usize, col_display: usize) -> (r: PosInfo)
        ensures
            r.spec_file() == *file,
            r.spec_line() == line,
            r.spec_col() == col,
            r.spec_col_display() == col_display,
    {
        PosInfo { file, line, col, col_display }
    }

    pub fn name(&self) -> (r: String)
        ensures
            r@ == self.spec_file().spec_path().spec_readable_name(),
    {
        self.file.name()
    }

    pub fn name_in(&self, cwd: &str) -> (r: String)
        ensures
            r@ == self.spec_file().spec_path().spec_readable_name_in(cwd@),
    {
        self.file.name_in(cwd)
    }

    pub fn file(&self) -> (r: Rc<SourceFile>)
        ensures
            *r == self.spec_file(),
    {
        self.file.clone()
    }

    pub fn line(&self) -> (r: usize)
        ensures
            r == self.spec_line(),
    {
        self.line
    }

    pub fn col(&self) -> (r: usize)
        ensures
            r == self.spec_col(),
    {
        self.col
    }

    pub fn col_display(&self) -> (r: usize)
        ensures
            r == self.spec_col_display(),
    {
        self.col_display
    }
}

} // verus!
