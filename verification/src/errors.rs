//! Diagnostics: the kinds of lexical error and the bag that gathers them.

use crate::source_map::BytePos;
use vstd::prelude::*;

verus! {

/// What went wrong while scanning, with the offset that locates it.
#[derive(Debug, Clone, Copy, PartialEq, Eq, Structural)]
pub enum Diag {
    /// A character that begins no word.
    UnknownCharacter { pos: BytePos },
    /// A letter directly behind a number.
    InvalidDigit { pos: BytePos },
    /// The text ended inside a block comment.
    MissingCommentTerminator,
}

/// Diagnostics in the order in which they were met.
#[derive(Debug)]
pub struct DiagBag {
    pub diags: Vec<Diag>,
}

impl View for DiagBag {
    type V = Seq<Diag>;

    open spec fn view(&self) -> Seq<Diag> {
        self.diags@
    }
}

impl DiagBag {
    /// A bag that holds nothing.
    pub fn new() -> (bag: DiagBag)
        ensures
            bag@ == Seq::<Diag>::empty(),
    {
        DiagBag { diags: Vec::new() }
    }

    /// Puts `diag` behind all that the bag holds.
    pub fn push(&mut self, diag: Diag)
        ensures
            final(self)@ == old(self)@.push(diag),
    {
        self.diags.push(diag)
    }

    /// Moves the diagnostics of `diag_bag` behind those of this bag, in their
    /// order.
    pub fn extend(&mut self, diag_bag: DiagBag)
        ensures
            final(self)@ == old(self)@ + diag_bag@,
    {
        let mut diag_bag = diag_bag;
        self.diags.append(&mut diag_bag.diags);
    }
}

/// Hands diagnostics to a sink that the caller supplies. The sink says
/// whether scanning should go on.
pub struct Handler<F: Fn(Diag) -> bool> {
    sink: F,
}

impl<F: Fn(Diag) -> bool> Handler<F> {
    /// The sink that this handler reports to.
    pub closed spec fn sink(&self) -> F {
        self.sink
    }

    /// A handler that reports to `sink`.
    pub fn with_sink(sink: F) -> (handler: Handler<F>)
        ensures
            handler.sink() == sink,
    {
        Handler { sink }
    }

    /// Hands `diag` to the sink and returns its answer.
    pub fn report(&self, diag: Diag) -> (go_on: bool)
        requires
            call_requires(self.sink(), (diag,)),
        ensures
            call_ensures(self.sink(), (diag,), go_on),
    {
        (self.sink)(diag)
    }
}

/// The sink that takes every diagnostic and lets scanning go on.
pub fn accept(diag: Diag) -> (go_on: bool)
    ensures
        go_on,
{
    true
}

/// A handler that takes every diagnostic and always lets scanning go on.
pub fn ignoring() -> (handler: Handler<impl Fn(Diag) -> bool>)
    ensures
        forall|diag: Diag| call_requires(handler.sink(), (diag,)),
        forall|diag: Diag, go_on: bool|
            call_ensures(handler.sink(), (diag,), go_on) ==> go_on,
{
    Handler::with_sink(accept)
}

} // verus!
