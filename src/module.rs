use vstd::prelude::*;

verus! {

/// A source file of the analysed project: its absolute path, the ids of the
/// symbols it holds, in order, and whether it was given as an entry point.
#[derive(Debug)]
pub struct LNModule {
    pub file_path: String,
    pub symbols: Vec<usize>,
    pub is_entry: bool,
}

impl LNModule {
    pub fn new(file_path: String, is_entry: bool) -> (r: Self)
        ensures
            r.file_path == file_path,
            r.symbols@.len() == 0,
            r.is_entry == is_entry,
    {
        LNModule { file_path, symbols: Vec::new(), is_entry }
    }
}

} // verus!
