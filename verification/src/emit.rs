//! The sink for generated text: a header and a body that only grow.
use vstd::prelude::*;
use vstd::string::*;

verus! {

/// Two append-only buffers of target text and the place the result is meant for.
///
/// The header takes the preamble and the declarations, which are hoisted out
/// of statement order; the body takes the statements in source order.
pub struct Emitter {
    /// Where the generated program is to be written.
    pub full_path: String,
    /// The body: statement text, in source order.
    pub code: String,
    /// Preamble and declarations.
    pub header: String,
}

/// The mathematical content of an [`Emitter`].
pub struct EmitterView {
    pub full_path: Seq<char>,
    pub body: Seq<char>,
    pub header: Seq<char>,
}

impl EmitterView {
    /// This emitter with `text` added to the body.
    pub open spec fn emit(self, text: Seq<char>) -> EmitterView {
        EmitterView { body: self.body + text, ..self }
    }

    /// This emitter with `text` and a line feed added to the body.
    pub open spec fn emit_line(self, text: Seq<char>) -> EmitterView {
        EmitterView { body: (self.body + text).push('\n'), ..self }
    }

    /// This emitter with `text` and a line feed added to the header.
    pub open spec fn header_line(self, text: Seq<char>) -> EmitterView {
        EmitterView { header: (self.header + text).push('\n'), ..self }
    }

    /// The finished program: the header, then the body.
    pub open spec fn output(self) -> Seq<char> {
        self.header + self.body
    }
}

impl View for Emitter {
    type V = EmitterView;

    open spec fn view(&self) -> EmitterView {
        EmitterView { full_path: self.full_path@, body: self.code@, header: self.header@ }
    }
}

impl Emitter {
    /// An emitter with empty buffers, meant for `full_path`.
    pub fn new(full_path: String) -> (emitter: Emitter)
        ensures
            emitter@ == (EmitterView {
                full_path: full_path@,
                body: Seq::empty(),
                header: Seq::empty(),
            }),
    {
        Emitter { full_path: full_path, code: String::new(), header: String::new() }
    }

    /// Appends `code` to the body.
    pub fn emit(&mut self, code: &str)
        ensures
            final(self)@ == old(self)@.emit(code@),
    {
        self.code.append(code);
    }

    /// Appends `code` and a line feed to the body.
    pub fn emit_line(&mut self, code: &str)
        ensures
            final(self)@ == old(self)@.emit_line(code@),
    {
        self.code.append(code);
        self.code.push('\n');
    }

    /// Appends `code` and a line feed to the header.
    pub fn header_line(&mut self, code: &str)
        ensures
            final(self)@ == old(self)@.header_line(code@),
    {
        self.header.append(code);
        self.header.push('\n');
    }

    /// The finished program: the header followed by the body.
    pub fn output(&self) -> (contents: String)
        ensures
            contents@ == self@.output(),
    {
        let mut contents: String = self.header.clone();
        contents.append(self.code.as_str());
        contents
    }
}

} // verus!
