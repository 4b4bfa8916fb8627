use vstd::prelude::*;

verus! {

/// The byte `=` that separates a key from its value in `key=value`.
pub const SEPARATOR: u8 = 61u8;

/// Finds the first `=` of a `key=value` argument: the key is what precedes
/// it and the value what follows it. `None` when there is no value.
pub fn find_separator(arg: &[u8]) -> (r: Option<usize>)
    ensures
        r matches Some(i) ==> i < arg@.len() && arg@[i as int] == SEPARATOR && forall|j: int|
            0 <= j < i ==> arg@[j] != SEPARATOR,
        r is None ==> forall|j: int| 0 <= j < arg@.len() ==> arg@[j] != SEPARATOR,
{
    let mut i: usize = 0;
    while i < arg.len()
        invariant
            i <= arg@.len(),
            forall|j: int| 0 <= j < i ==> arg@[j] != SEPARATOR,
        decreases arg@.len() - i,
    {
        if arg[i] == SEPARATOR {
            return Some(i);
        }
        i = i + 1;
    }
    None
}

} // verus!
