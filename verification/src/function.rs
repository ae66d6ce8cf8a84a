//! Compiled functions.
use vstd::prelude::*;
use crate::chunk::{Chunk, ChunkView};

verus! {

/// Whether a function was declared in a program or is the program itself.
#[derive(Debug, Clone, Copy, PartialEq, Eq, Structural)]
pub enum FunctionType {
    Fn,
    Script,
}

/// A unit of compiled code with its name and the number of its parameters.
#[derive(Debug)]
pub struct Function {
    pub num_params: usize,
    pub chunk: Chunk,
    pub name: String,
    pub native: bool,
    pub function_type: FunctionType,
}

pub ghost struct FunctionView {
    pub num_params: usize,
    pub chunk: ChunkView,
    pub name: Seq<char>,
    pub native: bool,
    pub function_type: FunctionType,
}

impl Function {
    /// What the function is, part by part.
    pub open spec fn view(&self) -> FunctionView
        decreases self,
    {
        FunctionView {
            num_params: self.num_params,
            chunk: self.chunk.view(),
            name: self.name@,
            native: self.native,
            function_type: self.function_type,
        }
    }

    /// A function of the given name and kind, with no parameters and no code.
    pub fn new(name: String, function_type: FunctionType) -> (f: Function)
        ensures
            f@ == (FunctionView {
                num_params: 0,
                chunk: ChunkView::empty(),
                name: name@,
                native: false,
                function_type,
            }),
            f.chunk.wf(),
    {
        Function { num_params: 0, chunk: Chunk::new(), name, native: false, function_type }
    }

    /// Whether two functions are the same in every part.
    pub fn identical(&self, other: &Function) -> (r: bool)
        ensures
            r == (self@ == other@),
        decreases self,
    {
        let kinds = match (self.function_type, other.function_type) {
            (FunctionType::Fn, FunctionType::Fn) => true,
            (FunctionType::Script, FunctionType::Script) => true,
            _ => false,
        };
        kinds && self.num_params == other.num_params && self.native == other.native && self.name
            == other.name && self.chunk.identical(&other.chunk)
    }

    /// A copy of the function, equal to it in every part.
    pub fn duplicate(&self) -> (r: Function)
        ensures
            r@ == self@,
            r.chunk.wf() == self.chunk.wf(),
        decreases self,
    {
        Function {
            num_params: self.num_params,
            chunk: self.chunk.duplicate(),
            name: self.name.clone(),
            native: self.native,
            function_type: self.function_type,
        }
    }
}

/// What a function is, part by part: its chunk holds the code and the lines
/// as they stand, and the views of the constants one for one.
pub proof fn lemma_function_view(f: &Function)
    ensures
        f@.num_params == f.num_params,
        f@.name == f.name@,
        f@.native == f.native,
        f@.function_type == f.function_type,
        f@.chunk == f.chunk@,
        f@.chunk.code == f.chunk.code@,
        f@.chunk.lines == f.chunk.lines@,
        f@.chunk.constants.len() == f.chunk.constants@.len(),
        forall|i: int|
            0 <= i < f.chunk.constants@.len() ==> #[trigger] f@.chunk.constants[i]
                == f.chunk.constants@[i]@,
{
    reveal_with_fuel(Function::view, 2);
}

} // verus!
