//! How updates of objects are packed.
use vstd::prelude::*;

verus! {

/// What an update says of an object.
#[derive(Debug, Clone, Copy, PartialEq, Eq, Structural)]
pub enum ObjectKind {
    Values,
    Movement,
    CreateObject,
    CreateObject2,
    OutOfRange,
    Near,
}

pub open spec fn creates(k: ObjectKind) -> bool {
    k == ObjectKind::CreateObject || k == ObjectKind::CreateObject2
}

/// Whether compression pays: for more than one object, and for any that is
/// created, for those are large.
pub open spec fn compresses(objects: Seq<ObjectKind>) -> bool {
    objects.len() >= 2 || exists|i: int| 0 <= i < objects.len() && creates(#[trigger] objects[i])
}

pub fn should_compress(objects: &Vec<ObjectKind>) -> (r: bool)
    ensures
        r == compresses(objects@),
{
    if objects.len() >= 2 {
        return true;
    }
    let mut i: usize = 0;
    while i < objects.len()
        invariant
            i <= objects@.len(),
            forall|j: int| 0 <= j < i ==> !creates(#[trigger] objects@[j]),
        decreases objects.len() - i,
    {
        match objects[i] {
            ObjectKind::CreateObject => {
                assert(creates(objects@[i as int]));
                return true;
            },
            ObjectKind::CreateObject2 => {
                assert(creates(objects@[i as int]));
                return true;
            },
            _ => {},
        }
        i += 1;
    }
    false
}

/// An update that is ready to be sent.
#[derive(Debug)]
pub enum UpdateObject {
    Plain(Vec<ObjectKind>),
    Compressed(Vec<ObjectKind>),
}

impl UpdateObject {
    /// Pack an update. There is none of nothing.
    pub fn from_objects(objects: Vec<ObjectKind>) -> (r: Option<Self>)
        ensures
            r == (if objects@.len() == 0 {
                None
            } else if compresses(objects@) {
                Some(UpdateObject::Compressed(objects))
            } else {
                Some(UpdateObject::Plain(objects))
            }),
    {
        if objects.len() == 0 {
            return None;
        }
        if should_compress(&objects) {
            Some(UpdateObject::Compressed(objects))
        } else {
            Some(UpdateObject::Plain(objects))
        }
    }
}

/// How many objects go into one update. What creates an object takes a thousand bytes
/// at most, and a header counts no more than 65535.
pub const OBJECTS_PER_UPDATE: usize = 50;

/// Where the `i`th of the updates ends that `n` objects go into.
pub open spec fn end_of(n: int, i: int) -> int {
    if (i + 1) * OBJECTS_PER_UPDATE < n {
        (i + 1) * OBJECTS_PER_UPDATE
    } else {
        n
    }
}

/// Where the updates end that `n` objects go into: all of them are full but the last.
pub fn chunk_ends(n: usize) -> (r: Vec<usize>)
    ensures
        r@.len() == (n + OBJECTS_PER_UPDATE - 1) / OBJECTS_PER_UPDATE as int,
        forall|i: int| 0 <= i < r@.len() ==> #[trigger] r@[i] == end_of(n as int, i),
{
    let mut r: Vec<usize> = Vec::new();
    let mut at: usize = 0;
    while at < n
        invariant
            at <= n,
            at == (if r@.len() * OBJECTS_PER_UPDATE < n {
                r@.len() * OBJECTS_PER_UPDATE
            } else {
                n as int
            }),
            r@.len() <= (n + OBJECTS_PER_UPDATE - 1) / OBJECTS_PER_UPDATE as int,
            forall|i: int| 0 <= i < r@.len() ==> #[trigger] r@[i] == end_of(n as int, i),
        decreases n - at,
    {
        at = if n - at > OBJECTS_PER_UPDATE {
            at + OBJECTS_PER_UPDATE
        } else {
            n
        };
        r.push(at);
    }
    r
}

/// Every object goes into one update, and none of the updates holds too many.
pub proof fn no_update_holds_too_many(n: int, i: int)
    requires
        0 <= i < (n + OBJECTS_PER_UPDATE - 1) / OBJECTS_PER_UPDATE as int,
    ensures
        ({
            let start = if i == 0 {
                0
            } else {
                end_of(n, i - 1)
            };
            &&& start == i * OBJECTS_PER_UPDATE
            &&& start < end_of(n, i) <= start + OBJECTS_PER_UPDATE
            &&& end_of(n, i) <= n
        }),
        i + 1 == (n + OBJECTS_PER_UPDATE - 1) / OBJECTS_PER_UPDATE as int ==> end_of(n, i) == n,
{
}

/// There is no update of nothing. More than one object, or one that is created, is
/// compressed; a single other one is not. The objects stay as they are.
pub proof fn updates_are_packed(objects: Vec<ObjectKind>, r: Option<UpdateObject>, i: int)
    requires
        call_ensures(UpdateObject::from_objects, (objects,), r),
    ensures
        objects@.len() == 0 ==> r is None,
        objects@.len() >= 2 ==> r == Some(UpdateObject::Compressed(objects)),
        0 <= i < objects@.len() && (objects@[i] is CreateObject || objects@[i] is CreateObject2) ==> r == Some(
            UpdateObject::Compressed(objects),
        ),
        objects@.len() == 1 && !(objects@[0] is CreateObject) && !(objects@[0] is CreateObject2) ==> r == Some(
            UpdateObject::Plain(objects),
        ),
{
    if 0 <= i < objects@.len() && (objects@[i] is CreateObject || objects@[i] is CreateObject2) {
        assert(creates(objects@[i]));
    }
}

/// Fifty objects go into each update but the last, which holds the rest.
pub proof fn updates_hold_fifty(n: usize, r: Vec<usize>, i: int)
    requires
        call_ensures(chunk_ends, (n,), r),
        0 <= i < r@.len(),
    ensures
        i + 1 < r@.len() ==> r@[i] == 50 * (i + 1),
        i + 1 == r@.len() ==> r@[i] == n && 50 * i < n <= 50 * (i + 1),
{
    let e = r@[i];
    assert(e == end_of(n as int, i));
}

} // verus!
