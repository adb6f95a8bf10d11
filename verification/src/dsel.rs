//! Introspection helpers for debugging coroutines.
use vstd::prelude::*;
use crate::text::{bool_text, push_bool};

verus! {

/// The snapshot text of a coroutine context.
pub open spec fn snapshot_text(cancelled: bool, is_completed: bool) -> Seq<char> {
    "CoroutineContext { cancelled: "@ + bool_text(cancelled) + ", is_completed: "@ + bool_text(
        is_completed,
    ) + " }"@
}

/// A human-friendly snapshot of a coroutine context: whether it is
/// cancelled and whether its job is completed.
pub fn snapshot_context(cancelled: bool, is_completed: bool) -> (r: String)
    ensures
        r@ == snapshot_text(cancelled, is_completed),
{
    let mut s = String::from_str("CoroutineContext { cancelled: ");
    push_bool(&mut s, cancelled);
    s.append(", is_completed: ");
    push_bool(&mut s, is_completed);
    s.append(" }");
    s
}

} // verus!
