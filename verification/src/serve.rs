//! What a track retains for its readers.

use vstd::prelude::*;

pub mod contents;
pub mod datagram;
pub mod object;
pub mod subgroup;

verus! {

/// Why a track, or a part of it, serves no more.
#[derive(Copy, Clone, Debug, PartialEq, Eq, Structural)]
pub enum ServeError {
    /// The other side is gone.
    Cancel,
    /// The identity was used before.
    Duplicate,
    /// Everything was served.
    Done,
    /// The track is served in another way.
    Mode,
    /// A payload does not have the announced size.
    Size,
    /// The peer closed with this code.
    Closed(u64),
    /// There is no such track.
    NotFound,
    /// The state contradicts itself.
    Internal,
}

/// How a track, or a part of it, stands with those who read it. Writing leaves
/// it as it is.
pub ghost struct Standing {
    /// Whether somebody reads.
    pub live: bool,
    pub closed: Result<(), ServeError>,
    /// How far each active reader has read.
    pub readers: Map<u64, usize>,
}

/// What a reader finds.
pub enum ReadOutcome<T> {
    /// The next item.
    Item(T),
    /// The writer closed with an error, and everything before it was read.
    Closed(ServeError),
    /// Nothing more will come.
    End,
    /// Nothing is there yet.
    Pending,
}

/// What a reader finds that has read everything: the error that the writer
/// closed with, or the end where the other side is gone, or nothing yet.
pub open spec fn drained<T>(closed: Result<(), ServeError>, live: bool) -> ReadOutcome<T> {
    match closed {
        Err(e) => ReadOutcome::Closed(e),
        Ok(()) => if live {
            ReadOutcome::Pending
        } else {
            ReadOutcome::End
        },
    }
}

/// The outcome for a reader that has read everything.
pub fn drained_outcome<T>(closed: &Result<(), ServeError>, live: bool) -> (r: ReadOutcome<T>)
    ensures
        r == drained::<T>(*closed, live),
{
    match closed {
        Err(e) => ReadOutcome::Closed(*e),
        Ok(()) => if live {
            ReadOutcome::Pending
        } else {
            ReadOutcome::End
        },
    }
}

/// The later of two places, where there are any.
pub open spec fn joined(a: Option<(u64, u64)>, b: Option<(u64, u64)>) -> Option<(u64, u64)> {
    match b {
        Some(location) => advanced(a, location),
        None => a,
    }
}

/// How a writer's attempt to close goes: the first error stays, and after the
/// other side is gone nothing can be closed.
pub open spec fn close_result(closed: Result<(), ServeError>, live: bool) -> Result<
    (),
    ServeError,
> {
    match closed {
        Err(e) => Err(e),
        Ok(()) => if live {
            Ok(())
        } else {
            Err(ServeError::Cancel)
        },
    }
}

/// Closes with an error.
pub fn close_with(closed: &mut Result<(), ServeError>, live: bool, err: ServeError) -> (r: Result<
    (),
    ServeError,
>)
    ensures
        r == close_result(*old(closed), live),
        r is Ok ==> *final(closed) == Err::<(), ServeError>(err),
        r is Err ==> *final(closed) == *old(closed),
{
    match closed {
        Err(e) => {
            return Err(*e);
        },
        Ok(()) => {},
    }
    if !live {
        return Err(ServeError::Cancel);
    }
    *closed = Err(err);
    Ok(())
}

/// The larger of two locations, a location being a group and a place in it.
pub open spec fn later(a: (u64, u64), b: (u64, u64)) -> (u64, u64) {
    if at_most(a, b) {
        b
    } else {
        a
    }
}

/// The order of locations: by group, then by place.
pub open spec fn at_most(a: (u64, u64), b: (u64, u64)) -> bool {
    a.0 < b.0 || (a.0 == b.0 && a.1 <= b.1)
}

pub fn location_at_most(a: (u64, u64), b: (u64, u64)) -> (r: bool)
    ensures
        r == at_most(a, b),
{
    a.0 < b.0 || (a.0 == b.0 && a.1 <= b.1)
}

/// A mark that only moves forward, moved to a location.
pub open spec fn advanced(mark: Option<(u64, u64)>, location: (u64, u64)) -> Option<(u64, u64)> {
    match mark {
        None => Some(location),
        Some(m) => Some(later(m, location)),
    }
}

pub fn advance_mark(mark: Option<(u64, u64)>, location: (u64, u64)) -> (r: Option<(u64, u64)>)
    ensures
        r == advanced(mark, location),
{
    match mark {
        None => Some(location),
        Some(m) => if location_at_most(m, location) {
            Some(location)
        } else {
            Some(m)
        },
    }
}

/// Locations are in one line: of any two the first is at most the second or the
/// second at most the first, both only where they are the same, and the order
/// carries over. A location in an earlier group comes first, and within a group
/// the one with the smaller place.
pub proof fn law_locations_are_in_one_line(a: (u64, u64), b: (u64, u64), c: (u64, u64))
    ensures
        at_most(a, b) || at_most(b, a),
        at_most(a, b) && at_most(b, a) ==> a == b,
        at_most(a, b) && at_most(b, c) ==> at_most(a, c),
        at_most(a, a),
        a.0 < b.0 ==> at_most(a, b) && !at_most(b, a),
        a.0 == b.0 && a.1 < b.1 ==> at_most(a, b) && !at_most(b, a),
{
}

/// A mark that only moves forward is, after it was moved, neither before where it
/// was nor before where it was moved to, and is one of the two.
pub proof fn law_mark_only_moves_forward(mark: Option<(u64, u64)>, location: (u64, u64))
    ensures
        mark is None ==> advanced(mark, location) == Some(location),
        mark matches Some(m) ==> {
            let moved = advanced(mark, location);
            &&& moved matches Some(n) && (m.0 < n.0 || (m.0 == n.0 && m.1 <= n.1)) && (location.0
                < n.0 || (location.0 == n.0 && location.1 <= n.1))
            &&& moved == mark || moved == Some(location)
        },
        joined(mark, None) == mark,
        joined(mark, Some(location)) == advanced(mark, location),
        joined(None, mark) == mark,
{
}

/// The first error that something is closed with stays; without one it can be
/// closed exactly as long as the other side is there.
pub proof fn law_first_error_stays(closed: Result<(), ServeError>, live: bool)
    ensures
        closed matches Err(e) ==> close_result(closed, live) == Err::<(), ServeError>(e),
        closed is Ok ==> (close_result(closed, live) is Ok) == live,
        closed is Ok && !live ==> close_result(closed, live) == Err::<(), ServeError>(
            ServeError::Cancel,
        ),
{
}

/// Who has read everything finds the error that was closed with, if there is
/// one; else the end once the other side is gone, and until then nothing yet.
pub proof fn law_end_is_found_once_the_other_side_is_gone<T>(
    closed: Result<(), ServeError>,
    live: bool,
)
    ensures
        closed matches Err(e) ==> drained::<T>(closed, live) == ReadOutcome::<T>::Closed(e),
        closed is Ok && live ==> drained::<T>(closed, live) is Pending,
        closed is Ok && !live ==> drained::<T>(closed, live) is End,
{
}

} // verus!
