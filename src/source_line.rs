use std::rc::Rc;

use vstd::prelude::*;

use crate::source_file::SourceFile;
use crate::span::Span;

verus! {

/// One line of a source file, by its 0-based index.
#[derive(PartialEq, Eq)]
pub struct SourceLine {
    file: Rc<SourceFile>,
    line: u32,
}

impl SourceLine {
    #[verifier::type_invariant]
    pub open spec fn inv(&self) -> bool {
        self.index() < self.spec_file().line_table().len()
    }

    pub closed spec fn spec_file(&self) -> SourceFile {
        *self.file
    }

    /// The 0-based index of the line.
    pub closed spec fn index(&self) -> int {
        self.line as int
    }

    pub fn new(file: Rc<SourceFile>, line: u32) -> (r: SourceLine)
        requires
            line < file.line_table().len(),
        ensures
            r.spec_file() == *file,
            r.index() == line,
    {
        SourceLine { file, line }
    }

    /// The 1-based line number.
    pub fn line_number(&self) -> (r: u32)
        ensures
            r == self.index() + 1,
    {
        proof {
            use_type_invariant(self);
            use_type_invariant(&*self.file);
            crate::text::lemma_line_starts(self.file.text(), self.file.start());
            crate::text::lemma_byte_offset_mono(self.file.text(), 0, self.file.text().len() as int);
        }
        self.line + 1
    }

    /// The text of the line, its line break included.
    pub fn source(&self) -> (r: String)
        ensures
            r@ == self.spec_file().text().subrange(
                self.spec_file().char_index(self.spec_file().line_table()[self.index()]),
                self.spec_file().char_index(self.spec_file().line_end(self.index())),
            ),
    {
        proof {
            use_type_invariant(self);
        }
        self.file.lookup_line_source(self.line as usize)
    }

    /// The span of the line, from its start to the start of the next line
    /// or the end of the file.
    pub fn span(&self) -> (r: Span)
        ensures
            r.lo() == self.spec_file().line_table()[self.index()],
            r.hi() == self.spec_file().line_end(self.index()),
    {
        proof {
            use_type_invariant(self);
        }
        self.file.lookup_line_span(self.line as usize)
    }
}

impl Clone for SourceLine {
    fn clone(&self) -> (r: SourceLine)
        ensures
            r.spec_file() == self.spec_file(),
            r.index() == self.index(),
    {
        proof {
            use_type_invariant(self);
        }
        SourceLine { file: self.file.clone(), line: self.line }
    }
}

} // verus!
