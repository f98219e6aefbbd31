//! Sets of outcomes.
//!
//! Much of this library runs against things that answer as they please: the
//! memory of a running game, functions inside it, rounding arithmetic. The
//! contracts therefore say which results a computation may have, given
//! whatever those things may answer. An outcome set with one member pins its
//! result down completely.

use vstd::prelude::*;

verus! {

/// The computation has this result and no other.
pub open spec fn exactly<T>(value: T) -> Set<T> {
    Set::new(|r: T| r == value)
}

/// The computation runs `first` and then `rest` on its result.
pub open spec fn and_then<T, U>(first: Set<T>, rest: spec_fn(T) -> Set<U>) -> Set<U> {
    Set::new(|r: U| exists|v: T| #[trigger] first.contains(v) && rest(v).contains(r))
}

/// The computation applies `function` to the result of `first`.
pub open spec fn mapped<T, U>(first: Set<T>, function: spec_fn(T) -> U) -> Set<U> {
    Set::new(|r: U| exists|v: T| #[trigger] first.contains(v) && function(v) == r)
}

/// The computation runs `first` and then `rest` on what it found, if it found something.
pub open spec fn and_if_some<T, U>(first: Set<Option<T>>, rest: spec_fn(T) -> Set<Option<U>>) -> Set<
    Option<U>,
> {
    and_then(
        first,
        |found: Option<T>|
            match found {
                Some(v) => rest(v),
                None => exactly(None),
            },
    )
}

/// The computation tests `condition` and runs one of two branches.
pub open spec fn branch<T>(condition: Set<bool>, yes: Set<T>, no: Set<T>) -> Set<T> {
    Set::new(
        |r: T| condition.contains(true) && yes.contains(r) || condition.contains(false) && no.contains(r),
    )
}

/// Whether a computation has at most one result.
pub open spec fn is_settled<T>(results: Set<T>) -> bool {
    forall|one: T, other: T| #[trigger]
        results.contains(one) && #[trigger] results.contains(other) ==> one == other
}

/// Whether a computation has no other result than this.
pub open spec fn is_only<T>(results: Set<T>, value: T) -> bool {
    forall|r: T| #[trigger] results.contains(r) ==> r == value
}

} // verus!
