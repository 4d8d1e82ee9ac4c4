//! Trades of the AO position stream: each message is a change to a position,
//! identified by the position's id.
use vstd::prelude::*;
use crate::decimal::{i64_to_decimal, signed_decimal};
use crate::trade::{BaseTrade, TradeDirection};

verus! {

/// The position after the change.
#[derive(Clone, Copy, Debug, PartialEq, Eq, Structural)]
pub struct AfterPosition {
    pub position_id: i64,
}

/// The position before the change.
#[derive(Clone, Copy, Debug, PartialEq, Eq, Structural)]
pub struct BeforePosition {
    pub position_id: i64,
}

/// A change to a position: `op` is "c" when the position is created and "d"
/// when it is deleted.
#[derive(Clone, Debug)]
pub struct Payload {
    pub op: String,
    pub after: AfterPosition,
    pub before: Option<BeforePosition>,
}

/// A trade message of the AO position stream.
#[derive(Clone, Debug)]
pub struct AOTrade {
    pub payload: Payload,
}

/// The direction that an operation code stands for: "c" creates, "d"
/// deletes; any other code has none.
pub open spec fn op_direction(op: Seq<char>) -> Option<TradeDirection> {
    if op == "c"@ {
        Some(TradeDirection::Create)
    } else if op == "d"@ {
        Some(TradeDirection::Delete)
    } else {
        None
    }
}

impl AOTrade {
    /// The text shown for the trade: its position id.
    pub fn display(&self) -> (s: String)
        ensures
            s@ == signed_decimal(self.payload.after.position_id as int),
    {
        i64_to_decimal(self.payload.after.position_id)
    }

    /// The direction of the trade's operation, if the operation is known.
    pub fn try_direction(&self) -> (d: Option<TradeDirection>)
        ensures
            d == op_direction(self.payload.op@),
    {
        let create = String::from_str("c");
        let delete = String::from_str("d");
        if self.payload.op == create {
            Some(TradeDirection::Create)
        } else if self.payload.op == delete {
            Some(TradeDirection::Delete)
        } else {
            None
        }
    }
}

impl BaseTrade for AOTrade {
    /// A trade is identified by the id of the position after the change.
    open spec fn spec_id(&self) -> Seq<char> {
        signed_decimal(self.payload.after.position_id as int)
    }

    open spec fn has_direction(&self) -> bool {
        op_direction(self.payload.op@) is Some
    }

    open spec fn spec_direction(&self) -> TradeDirection {
        op_direction(self.payload.op@)->0
    }

    fn id(&self) -> (r: String) {
        i64_to_decimal(self.payload.after.position_id)
    }

    fn direction(&self) -> (d: TradeDirection) {
        match self.try_direction() {
            Some(d) => d,
            None => TradeDirection::Create,
        }
    }
}

/// A trade known only by its id.
#[derive(Clone, Debug)]
pub struct AOTradeRep(pub String);

impl BaseTrade for AOTradeRep {
    open spec fn spec_id(&self) -> Seq<char> {
        self.0@
    }

    open spec fn has_direction(&self) -> bool {
        true
    }

    /// Such a trade always creates its position.
    open spec fn spec_direction(&self) -> TradeDirection {
        TradeDirection::Create
    }

    fn id(&self) -> (r: String) {
        self.0.clone()
    }

    fn direction(&self) -> (d: TradeDirection) {
        TradeDirection::Create
    }
}

} // verus!
