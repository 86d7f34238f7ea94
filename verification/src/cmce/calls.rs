//! The calls that the base station serves, and the messages that it sends about them.

use std::collections::HashMap;

use vstd::prelude::*;

use crate::tdma_time::TdmaTime;

verus! {

/// A terminal's or a group's address.
#[derive(Debug, Clone, Copy, PartialEq, Eq, Structural)]
pub struct TetraAddress {
    pub ssi: u32,
}

/// Where a call stands.
#[derive(Debug, Clone, Copy, PartialEq, Eq, Structural)]
pub enum CallPhase {
    /// The call is being set up.
    Setup,
    /// The call is up.
    Active,
    /// A party that lost the cell is being brought back into the call.
    Restoring,
    /// The call is being torn down.
    Releasing,
}

/// A call cannot be restored from the phase that it is in.
#[derive(Debug, Clone, Copy, PartialEq, Eq, Structural)]
pub struct NotActive;

/// A call between two parties.
#[derive(Debug, Clone, Copy, PartialEq, Eq, Structural)]
pub struct IndividualCall {
    pub calling_addr: TetraAddress,
    pub called_addr: TetraAddress,
    pub phase: CallPhase,
    /// The parties talk in turn. In a duplex call both talk at any time, and nobody holds the
    /// floor.
    pub simplex: bool,
    /// The party that may talk.
    pub floor_holder: Option<TetraAddress>,
    /// Since when the call has been up.
    pub active_timer_started: Option<TdmaTime>,
}

impl IndividualCall {
    /// `ssi` is one of the two parties.
    pub open spec fn has_party(self, ssi: u32) -> bool {
        ssi == self.calling_addr.ssi || ssi == self.called_addr.ssi
    }

    /// Somebody with this address holds the floor.
    pub open spec fn held_by(self, ssi: u32) -> bool {
        self.floor_holder matches Some(holder) && holder.ssi == ssi
    }

    pub fn is_active(&self) -> (active: bool)
        ensures
            active == (self.phase is Active),
    {
        matches!(self.phase, CallPhase::Active)
    }

    pub fn is_simplex(&self) -> (simplex: bool)
        ensures
            simplex == self.simplex,
    {
        self.simplex
    }

    pub fn is_floor_held_by(&self, ssi: u32) -> (held: bool)
        ensures
            held == self.held_by(ssi),
    {
        match self.floor_holder {
            Some(holder) => holder.ssi == ssi,
            None => false,
        }
    }

    /// Hand the floor to `to`.
    pub fn grant_floor(&mut self, to: TetraAddress)
        ensures
            *final(self) == (IndividualCall { floor_holder: Some(to), ..*old(self) }),
    {
        self.floor_holder = Some(to);
    }

    /// Start bringing a party back into the call.
    pub fn begin_restore(&mut self) -> (begun: Result<(), NotActive>)
        ensures
            begun is Ok <==> old(self).phase is Active,
            *final(self) == if begun is Ok {
                IndividualCall { phase: CallPhase::Restoring, ..*old(self) }
            } else {
                *old(self)
            },
    {
        match self.phase {
            CallPhase::Active => {
                self.phase = CallPhase::Restoring;
                Ok(())
            },
            _ => Err(NotActive),
        }
    }

    /// The party is back.
    pub fn complete_restore(&mut self)
        ensures
            *final(self) == (IndividualCall { phase: CallPhase::Active, ..*old(self) }),
    {
        self.phase = CallPhase::Active;
    }
}

/// A call to a group.
#[derive(Debug, Clone, Copy, PartialEq, Eq, Structural)]
pub struct GroupCall {
    pub phase: CallPhase,
    /// Somebody is talking.
    pub tx_active: bool,
    /// The member that talks, or talked last.
    pub source_issi: u32,
    /// That member's address, where it is known.
    pub source_addr: Option<TetraAddress>,
    pub dest_gssi: u32,
    /// The carrier and the timeslot that the call is on.
    pub carrier_num: u16,
    pub ts: u8,
}

impl GroupCall {
    /// Hand the floor to a member.
    pub fn grant_floor(&mut self, issi: u32, addr: Option<TetraAddress>)
        ensures
            *final(self) == (GroupCall {
                tx_active: true,
                source_issi: issi,
                source_addr: addr,
                ..*old(self)
            }),
    {
        self.tx_active = true;
        self.source_issi = issi;
        self.source_addr = addr;
    }

    /// Start bringing a member back into the call.
    pub fn begin_restore(&mut self) -> (begun: Result<(), NotActive>)
        ensures
            begun is Ok <==> old(self).phase is Active,
            *final(self) == if begun is Ok {
                GroupCall { phase: CallPhase::Restoring, ..*old(self) }
            } else {
                *old(self)
            },
    {
        match self.phase {
            CallPhase::Active => {
                self.phase = CallPhase::Restoring;
                Ok(())
            },
            _ => Err(NotActive),
        }
    }

    /// The member is back.
    pub fn complete_restore(&mut self)
        ensures
            *final(self) == (GroupCall { phase: CallPhase::Active, ..*old(self) }),
    {
        self.phase = CallPhase::Active;
    }
}

/// What a terminal is told about the permission to talk.
#[derive(Debug, Clone, Copy, PartialEq, Eq, Structural)]
pub enum TransmissionGrant {
    Granted,
    NotGranted,
    GrantedToOtherUser,
}

/// Why a call ends.
#[derive(Debug, Clone, Copy, PartialEq, Eq, Structural)]
pub enum DisconnectCause {
    CallRestorationOfTheOtherUserFailed,
}

/// How a call stands, as a terminal is told.
#[derive(Debug, Clone, Copy, PartialEq, Eq, Structural)]
pub enum CallStatus {
    Callcontinue,
}

/// Who beyond the cell is told that the floor has been handed over.
#[derive(Debug, Clone, Copy, PartialEq, Eq, Structural)]
pub enum BrewNotification {
    /// The network, if the group is routed there.
    IfGroupRoutable(u32),
}

/// The floor of a call, handed to a talker.
#[derive(Debug, Clone, Copy, PartialEq, Eq, Structural)]
pub struct GroupFloorGrant {
    pub call_id: u16,
    pub source_issi: u32,
    pub dest_gssi: u32,
    pub carrier_num: u16,
    pub ts: u8,
    pub is_group: bool,
}

/// The link that a message came in on, and that the answer goes out on.
#[derive(Debug, Clone, Copy, PartialEq, Eq, Structural)]
pub struct Link {
    pub handle: u32,
    pub link_id: u32,
    pub endpoint_id: u32,
}

/// A message to another entity of the base station.
#[derive(Debug, Clone, Copy, PartialEq, Eq, Structural)]
pub enum Message {
    /// D-CALL RESTORE to one terminal.
    DCallRestore {
        dltime: TdmaTime,
        to: TetraAddress,
        link: Link,
        call_id: u16,
        grant: TransmissionGrant,
        call_status: CallStatus,
    },
    /// D-RELEASE to one terminal.
    DRelease {
        dltime: TdmaTime,
        to: TetraAddress,
        link: Link,
        call_id: u16,
        cause: DisconnectCause,
    },
    /// D-TX GRANTED to the listeners, stolen from the traffic channel.
    DTxGrantedFacch {
        call_id: u16,
        source_issi: u32,
        dest_gssi: u32,
        carrier_num: u16,
        ts: u8,
    },
    /// The floor has been handed to a talker on this cell: the uplink is watched for silence.
    FloorGranted { floor: GroupFloorGrant, local: bool, notification: BrewNotification },
}

/// A U-CALL RESTORE.
#[derive(Debug, Clone, Copy, PartialEq, Eq, Structural)]
pub struct UCallRestore {
    pub call_identifier: u16,
    /// Table 14.74: the bit is 0 when the MS asks to transmit and 1 when it lets the other party
    /// talk.
    pub request_to_transmit_send_data: bool,
}

/// Call control of the base station.
pub struct CcBsSubentity {
    pub individual_calls: HashMap<u16, IndividualCall>,
    pub active_calls: HashMap<u16, GroupCall>,
    /// The current downlink time.
    pub dltime: TdmaTime,
}

/// A call can be restored while it is up, and only then; it is up again once the party is back, and
/// nothing else about it changes on the way. Handing over the floor changes who holds it and
/// nothing else.
pub proof fn law_a_call_is_up_before_and_after_it_is_restored()
    ensures
        forall|c: &mut IndividualCall, r: Result<(), NotActive>| #[trigger]
            call_ensures(IndividualCall::begin_restore, (c,), r) ==> {
                &&& r is Ok <==> c.phase is Active
                &&& r is Ok ==> final(c).phase is Restoring
                &&& r is Err ==> final(c).phase == c.phase
                &&& final(c).floor_holder == c.floor_holder
                &&& same_parties(*c, *final(c))
            },
        forall|c: &mut IndividualCall, r: ()| #[trigger]
            call_ensures(IndividualCall::complete_restore, (c,), r) ==> {
                &&& final(c).phase is Active
                &&& final(c).floor_holder == c.floor_holder
                &&& same_parties(*c, *final(c))
            },
        forall|c: &mut IndividualCall, to: TetraAddress, r: ()| #[trigger]
            call_ensures(IndividualCall::grant_floor, (c, to), r) ==> {
                &&& final(c).floor_holder == Some(to)
                &&& final(c).phase == c.phase
                &&& same_parties(*c, *final(c))
            },
        forall|c: &mut GroupCall, r: Result<(), NotActive>| #[trigger]
            call_ensures(GroupCall::begin_restore, (c,), r) ==> {
                &&& r is Ok <==> c.phase is Active
                &&& *final(c) == (GroupCall { phase: final(c).phase, ..*c })
                &&& r is Ok ==> final(c).phase is Restoring
                &&& r is Err ==> final(c).phase == c.phase
            },
        forall|c: &mut GroupCall, r: ()| #[trigger]
            call_ensures(GroupCall::complete_restore, (c,), r) ==> {
                &&& final(c).phase is Active
                &&& *final(c) == (GroupCall { phase: final(c).phase, ..*c })
            },
        forall|c: &mut GroupCall, issi: u32, addr: Option<TetraAddress>, r: ()| #[trigger]
            call_ensures(GroupCall::grant_floor, (c, issi, addr), r) ==> {
                &&& final(c).tx_active
                &&& final(c).source_issi == issi
                &&& final(c).source_addr == addr
                &&& final(c).phase == c.phase
                &&& final(c).dest_gssi == c.dest_gssi
                &&& final(c).carrier_num == c.carrier_num
                &&& final(c).ts == c.ts
            },
{
}

/// Two calls are between the same parties, of the same kind, and have been up for as long.
pub open spec fn same_parties(a: IndividualCall, b: IndividualCall) -> bool {
    &&& a.calling_addr == b.calling_addr
    &&& a.called_addr == b.called_addr
    &&& a.simplex == b.simplex
    &&& a.active_timer_started == b.active_timer_started
}

/// What is asked of a call is what it holds.
pub proof fn law_a_call_tells_what_it_is(
    call: IndividualCall,
    ssi: u32,
    active: bool,
    simplex: bool,
    held: bool,
)
    requires
        call_ensures(IndividualCall::is_active, (&call,), active),
        call_ensures(IndividualCall::is_simplex, (&call,), simplex),
        call_ensures(IndividualCall::is_floor_held_by, (&call, ssi), held),
    ensures
        active <==> call.phase is Active,
        simplex == call.simplex,
        call.floor_holder is None ==> !held,
        call.floor_holder matches Some(holder) ==> held == (holder.ssi == ssi),
        call.has_party(ssi) <==> ssi == call.calling_addr.ssi || ssi == call.called_addr.ssi,
{
}

} // verus!
