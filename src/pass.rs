use vstd::prelude::*;
use vstd::slice::slice_to_vec;

verus! {

/// A borrowed view of a command stream that is being recorded.
#[derive(Clone, Copy, Debug)]
pub struct BasePassRef<'a, C> {
    pub commands: &'a [C],
    pub dynamic_offsets: &'a [u32],
    pub string_data: &'a [u8],
    pub push_constant_data: &'a [u32],
}

impl<'a, C> View for BasePassRef<'a, C> {
    /// Records, dynamic offsets, string bytes and push-constant words.
    type V = (Seq<C>, Seq<u32>, Seq<u8>, Seq<u32>);

    open spec fn view(&self) -> (Seq<C>, Seq<u32>, Seq<u8>, Seq<u32>) {
        (self.commands@, self.dynamic_offsets@, self.string_data@, self.push_constant_data@)
    }
}

/// A command stream that owns its records and side arrays.
#[derive(Debug)]
pub struct BasePass<C> {
    pub commands: Vec<C>,
    pub dynamic_offsets: Vec<u32>,
    pub string_data: Vec<u8>,
    pub push_constant_data: Vec<u32>,
}

impl<C> View for BasePass<C> {
    /// Records, dynamic offsets, string bytes and push-constant words.
    type V = (Seq<C>, Seq<u32>, Seq<u8>, Seq<u32>);

    open spec fn view(&self) -> (Seq<C>, Seq<u32>, Seq<u8>, Seq<u32>) {
        (self.commands@, self.dynamic_offsets@, self.string_data@, self.push_constant_data@)
    }
}

impl<C: Copy> BasePass<C> {
    /// An empty command stream.
    pub fn new() -> (r: Self)
        ensures
            r@ == (Seq::<C>::empty(), Seq::<u32>::empty(), Seq::<u8>::empty(), Seq::<u32>::empty()),
    {
        BasePass {
            commands: Vec::new(),
            dynamic_offsets: Vec::new(),
            string_data: Vec::new(),
            push_constant_data: Vec::new(),
        }
    }

    /// Copies the four arrays of a borrowed view into an owned stream.
    pub fn from_ref(base: BasePassRef<C>) -> (r: Self)
        ensures
            r@ == base@,
    {
        BasePass {
            commands: slice_to_vec(base.commands),
            dynamic_offsets: slice_to_vec(base.dynamic_offsets),
            string_data: slice_to_vec(base.string_data),
            push_constant_data: slice_to_vec(base.push_constant_data),
        }
    }

    /// A borrowed view of this stream.
    pub fn as_ref(&self) -> (r: BasePassRef<'_, C>)
        ensures
            r@ == self@,
    {
        BasePassRef {
            commands: self.commands.as_slice(),
            dynamic_offsets: self.dynamic_offsets.as_slice(),
            string_data: self.string_data.as_slice(),
            push_constant_data: self.push_constant_data.as_slice(),
        }
    }
}

/// Taking a borrowed view into an owned stream and viewing that again gives
/// back the same records and side arrays, in the same order.
pub proof fn lemma_pass_round_trip<C>(view: BasePassRef<C>, owned: BasePass<C>, back: BasePassRef<C>)
    requires
        owned@ == view@,
        back@ == owned@,
    ensures
        back.commands@ == view.commands@,
        back.dynamic_offsets@ == view.dynamic_offsets@,
        back.string_data@ == view.string_data@,
        back.push_constant_data@ == view.push_constant_data@,
{
}

} // verus!
