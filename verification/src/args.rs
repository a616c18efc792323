//! Lookup and removal of flags in a command line.

use vstd::prelude::*;
use crate::text::same_text;

verus! {

/// Index of the first element of `args` equal to `arg`, if there is one.
fn position(args: &[String], arg: &str) -> (r: Option<usize>)
    ensures
        match r {
            Some(e) => args.deep_view().index_of_first(arg@) == Some(e as int) && e < args.len(),
            None => args.deep_view().index_of_first(arg@) is None,
        },
{
    let ghost words = args.deep_view();
    let mut i: usize = 0;
    while i < args.len()
        invariant
            i <= args.len(),
            words == args.deep_view(),
            forall|j: int| 0 <= j < i ==> words[j] != arg@,
        decreases args.len() - i,
    {
        assert(words[i as int] == args[i as int]@);
        if same_text(args[i].as_str(), arg) {
            proof {
                words.index_of_first_ensures(arg@);
                assert(words.contains(arg@));
            }
            return Some(i);
        }
        i += 1;
    }
    proof {
        words.index_of_first_ensures(arg@);
    }
    None
}

/// The element that follows the first occurrence of `arg`, if both exist.
pub fn arg_value(args: &[String], arg: &str) -> (r: Option<String>)
    ensures
        r.deep_view() == match args.deep_view().index_of_first(arg@) {
            Some(e) if e + 1 < args.len() => Some(args.deep_view()[e + 1]),
            _ => None,
        },
{
    if let Some(e) = position(args, arg) {
        if e < args.len() - 1 {
            assert(args.deep_view()[e + 1] == args[e + 1]@);
            return Some(args[e + 1].clone());
        }
    }
    None
}

/// Whether `arg` occurs in `args`.
pub fn arg_bool(args: &[String], arg: &str) -> (r: bool)
    ensures
        r == args.deep_view().contains(arg@),
{
    proof {
        args.deep_view().index_of_first_ensures(arg@);
    }
    position(args, arg).is_some()
}

/// Removes the first occurrence of `arg`; without one, `args` stays as it is.
pub fn arg_remove(args: &mut Vec<String>, arg: &str)
    ensures
        final(args).deep_view() == old(args).deep_view().remove_value(arg@),
{
    if let Some(e) = position(args.as_slice(), arg) {
        args.remove(e);
        assert(args.deep_view() =~= old(args).deep_view().remove(e as int));
    }
}

/// Removes the first occurrence of `arg` together with the element after it.
///
/// A flag that stands last has no value to remove, so such a command line is
/// not accepted.
pub fn arg_remove_value(args: &mut Vec<String>, arg: &str)
    requires
        old(args).deep_view().index_of_first(arg@) matches Some(e) ==> e + 1 < old(args).len(),
    ensures
        final(args).deep_view() == match old(args).deep_view().index_of_first(arg@) {
            Some(e) => old(args).deep_view().remove(e).remove(e),
            None => old(args).deep_view(),
        },
{
    if let Some(e) = position(args.as_slice(), arg) {
        args.remove(e);
        args.remove(e);
        assert(args.deep_view() =~= old(args).deep_view().remove(e as int).remove(e as int));
    }
}

} // verus!
