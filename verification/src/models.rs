//! The record types of the inventory: items, warehouses, and the error model.

use vstd::prelude::*;

verus! {

/// How an item travels.
#[derive(Clone, Copy, Debug, PartialEq, Eq, Structural)]
pub enum Transport {
    Air,
    Sea,
    Land,
}

impl Transport {
    /// The printed name of a transport method.
    pub open spec fn name_spec(self) -> Seq<char> {
        match self {
            Transport::Air => "Air"@,
            Transport::Sea => "Sea"@,
            Transport::Land => "Land"@,
        }
    }

    /// The printed name of this transport method.
    pub fn name(&self) -> (r: &'static str)
        ensures
            r@ == self.name_spec(),
    {
        match self {
            Transport::Air => "Air",
            Transport::Sea => "Sea",
            Transport::Land => "Land",
        }
    }

    /// Parses a printed transport name; anything but the three names is
    /// rejected.
    pub fn parse(s: &str) -> (r: Option<Transport>)
        ensures
            r matches Some(t) ==> s@ == t.name_spec(),
            r is None ==> s@ != "Air"@ && s@ != "Sea"@ && s@ != "Land"@,
    {
        proof {
            reveal_strlit("Air");
            reveal_strlit("Sea");
            reveal_strlit("Land");
        }
        let len = s.unicode_len();
        if len == 3 {
            let c0 = s.get_char(0);
            let c1 = s.get_char(1);
            let c2 = s.get_char(2);
            if c0 == 'A' && c1 == 'i' && c2 == 'r' {
                proof {
                    assert(s@ =~= "Air"@);
                }
                Some(Transport::Air)
            } else if c0 == 'S' && c1 == 'e' && c2 == 'a' {
                proof {
                    assert(s@ =~= "Sea"@);
                }
                Some(Transport::Sea)
            } else {
                None
            }
        } else if len == 4 {
            let c0 = s.get_char(0);
            let c1 = s.get_char(1);
            let c2 = s.get_char(2);
            let c3 = s.get_char(3);
            if c0 == 'L' && c1 == 'a' && c2 == 'n' && c3 == 'd' {
                proof {
                    assert(s@ =~= "Land"@);
                }
                Some(Transport::Land)
            } else {
                None
            }
        } else {
            None
        }
    }
}

/// The physical dimensions of an item, in metres.
#[derive(Clone, Copy, Debug, PartialEq, Eq, Structural)]
pub struct Dimensions {
    pub width: i16,
    pub height: i16,
    pub depth: i16,
}

/// A stock record. `warehouse` is `None` while the item is unassigned;
/// it is mutated only through the assign/unassign operations of the core.
#[derive(Clone, Copy, Debug, PartialEq, Eq)]
pub struct InventoryItem {
    pub id: i32,
    pub warehouse: Option<i32>,
    pub weight: i16,
    pub value: i16,
    pub transport: Transport,
    pub dimensions: Dimensions,
}

/// A warehouse record: an id and the ids of the items it holds, in
/// insertion order, without duplicates.
#[derive(Clone, Debug, PartialEq, Eq)]
pub struct Warehouse {
    pub id: i32,
    pub items: Vec<i32>,
}

/// The mathematical shape of a [`Warehouse`].
#[verifier::ext_equal]
pub struct WarehouseView {
    pub id: i32,
    pub items: Seq<i32>,
}

impl View for Warehouse {
    type V = WarehouseView;

    open spec fn view(&self) -> WarehouseView {
        WarehouseView { id: self.id, items: self.items@ }
    }
}

/// What went wrong, independent of any transport protocol.
#[derive(Clone, Copy, Debug, PartialEq, Eq, Structural)]
pub enum ErrorKind {
    /// A referenced entity id does not exist.
    NotFound,
    /// The request violates a business rule.
    Conflict,
    /// The two halves of the item/warehouse relationship disagree.
    Inconsistency,
    /// A persistence handle could not be obtained.
    StoreUnavailable,
    /// The operation is not supported.
    NotImplemented,
    /// A response could not be encoded.
    SerializationFailure,
}

/// A failure of a core operation: a kind and a human-readable message that
/// names the offending ids and the rule violated.
#[derive(Clone, Debug)]
pub struct Error {
    pub kind: ErrorKind,
    pub msg: String,
}

/// Replaces the message of a `NotFound` error, leaving other errors alone.
pub trait NotFound<T>: Sized {
    fn not_found(self, msg: String) -> Result<T, Error>;
}

impl<T> NotFound<T> for Result<T, Error> {
    /// On `Err` with kind `NotFound`, substitute `msg` for the message;
    /// any other value passes through unchanged.
    fn not_found(self, msg: String) -> (r: Result<T, Error>)
        ensures
            self is Ok ==> r == self,
            self matches Err(e) ==> (if e.kind == ErrorKind::NotFound {
                r matches Err(r_e) && r_e.kind == ErrorKind::NotFound && r_e.msg == msg
            } else {
                r == Err::<T, Error>(e)
            }),
    {
        match self {
            Ok(t) => Ok(t),
            Err(e) => {
                if matches!(e.kind, ErrorKind::NotFound) {
                    Err(Error { kind: ErrorKind::NotFound, msg })
                } else {
                    Err(e)
                }
            },
        }
    }
}

} // verus!
