use vstd::prelude::*;

verus! {

/// A display name for an entity; not required to be unique.
pub struct Tag(pub String);

/// The script resource attached to an entity.
pub struct Script {
    pub wasm: String,
}

impl View for Tag {
    type V = Seq<char>;

    open spec fn view(&self) -> Seq<char> {
        self.0@
    }
}

impl View for Script {
    type V = Seq<char>;

    open spec fn view(&self) -> Seq<char> {
        self.wasm@
    }
}

impl Default for Script {
    fn default() -> (r: Script)
        ensures
            r.wasm@ == Seq::<char>::empty(),
    {
        Script { wasm: String::new() }
    }
}

} // verus!
