//! Bringing a terminal back into its call after it lost the cell.

use vstd::prelude::*;

use super::calls::{
    BrewNotification, CallStatus, CcBsSubentity, DisconnectCause, GroupCall,
    GroupFloorGrant, IndividualCall, Link, Message, TetraAddress, TransmissionGrant, UCallRestore,
};
use crate::tdma_time::TdmaTime;

verus! {

/// A party comes back into a call between two: what it is told about the floor, and the call
/// afterwards.
///
/// In a duplex call it may always talk. In a simplex call it is handed the floor if it asks for it
/// and nobody else holds it.
pub open spec fn party_restored(
    call: IndividualCall,
    sender: TetraAddress,
    wants_to_transmit: bool,
    now: TdmaTime,
) -> (TransmissionGrant, IndividualCall) {
    let restored = IndividualCall { active_timer_started: Some(now), ..call };
    if !call.simplex {
        (TransmissionGrant::Granted, restored)
    } else if wants_to_transmit && (call.floor_holder is None || call.held_by(sender.ssi)) {
        (
            TransmissionGrant::Granted,
            IndividualCall { floor_holder: Some(sender), ..restored },
        )
    } else if call.floor_holder is Some {
        (TransmissionGrant::GrantedToOtherUser, restored)
    } else {
        (TransmissionGrant::NotGranted, restored)
    }
}

/// A member comes back into a group call: what it is told about the floor, and the call
/// afterwards. It is handed the floor if it asks for it and nobody else is talking.
pub open spec fn member_restored(
    call: GroupCall,
    sender: TetraAddress,
    wants_to_transmit: bool,
) -> (TransmissionGrant, GroupCall) {
    if wants_to_transmit && (!call.tx_active || call.source_issi == sender.ssi) {
        (
            TransmissionGrant::Granted,
            GroupCall {
                tx_active: true,
                source_issi: sender.ssi,
                source_addr: Some(sender),
                ..call
            },
        )
    } else if call.tx_active {
        (TransmissionGrant::GrantedToOtherUser, call)
    } else {
        (TransmissionGrant::NotGranted, call)
    }
}

/// The answer to a terminal that is back in its call.
pub open spec fn restored_answer(
    dltime: TdmaTime,
    to: TetraAddress,
    link: Link,
    call_id: u16,
    grant: TransmissionGrant,
) -> Message {
    Message::DCallRestore { dltime, to, link, call_id, grant, call_status: CallStatus::Callcontinue }
}

/// The answer to a terminal whose call cannot be restored.
pub open spec fn rejected_answer(dltime: TdmaTime, to: TetraAddress, link: Link, call_id: u16) -> Message {
    Message::DRelease {
        dltime,
        to,
        link,
        call_id,
        cause: DisconnectCause::CallRestorationOfTheOtherUserFailed,
    }
}

/// The messages that hand the floor of a group call to `talker`.
pub open spec fn floor_messages(call: GroupCall, call_id: u16, talker: u32) -> Seq<Message> {
    seq![
        Message::DTxGrantedFacch {
            call_id,
            source_issi: talker,
            dest_gssi: call.dest_gssi,
            carrier_num: call.carrier_num,
            ts: call.ts,
        },
        Message::FloorGranted {
            floor: GroupFloorGrant {
                call_id,
                source_issi: talker,
                dest_gssi: call.dest_gssi,
                carrier_num: call.carrier_num,
                ts: call.ts,
                is_group: true,
            },
            local: true,
            notification: BrewNotification::IfGroupRoutable(call.dest_gssi),
        },
    ]
}

/// What a U-CALL RESTORE does.
pub struct Restoration {
    pub individual_calls: Map<u16, IndividualCall>,
    pub active_calls: Map<u16, GroupCall>,
    pub messages: Seq<Message>,
}

/// What the U-CALL RESTORE `pdu` from `sender` does to the calls, and the messages that it leads
/// to.
pub open spec fn restoration(
    individual_calls: Map<u16, IndividualCall>,
    active_calls: Map<u16, GroupCall>,
    dltime: TdmaTime,
    sender: TetraAddress,
    link: Link,
    pdu: UCallRestore,
) -> Restoration {
    let id = pdu.call_identifier;
    let wants = !pdu.request_to_transmit_send_data;
    let rejected = Restoration {
        individual_calls,
        active_calls,
        messages: seq![rejected_answer(dltime, sender, link, id)],
    };
    if individual_calls.contains_key(id) {
        let call = individual_calls[id];
        if call.phase is Active && call.has_party(sender.ssi) {
            let (grant, after) = party_restored(call, sender, wants, dltime);
            Restoration {
                individual_calls: individual_calls.insert(id, after),
                active_calls,
                messages: seq![restored_answer(dltime, sender, link, id, grant)],
            }
        } else {
            rejected
        }
    } else if active_calls.contains_key(id) && active_calls[id].phase is Active {
        let (grant, after) = member_restored(active_calls[id], sender, wants);
        Restoration {
            individual_calls,
            active_calls: active_calls.insert(id, after),
            messages: seq![restored_answer(dltime, sender, link, id, grant)] + if grant is Granted {
                floor_messages(after, id, sender.ssi)
            } else {
                Seq::empty()
            },
        }
    } else {
        rejected
    }
}

impl CcBsSubentity {
    /// A terminal asks to be brought back into its call.
    pub fn fsm_on_u_call_restore(
        &mut self,
        queue: &mut Vec<Message>,
        sender: TetraAddress,
        handle: u32,
        link_id: u32,
        endpoint_id: u32,
        pdu: UCallRestore,
    )
        ensures
            ({
                let done = restoration(
                    old(self).individual_calls@,
                    old(self).active_calls@,
                    old(self).dltime,
                    sender,
                    Link { handle, link_id, endpoint_id },
                    pdu,
                );
                &&& final(self).individual_calls@ == done.individual_calls
                &&& final(self).active_calls@ == done.active_calls
                &&& final(self).dltime == old(self).dltime
                &&& final(queue)@ == old(queue)@ + done.messages
            }),
    {
        broadcast use vstd::std_specs::hash::group_hash_axioms;

        let call_id: u16 = pdu.call_identifier;
        let link = Link { handle, link_id, endpoint_id };

        if let Some(found) = self.individual_calls.get(&call_id) {
            let mut call: IndividualCall = *found;
            if !call.is_active() || (sender.ssi != call.calling_addr.ssi && sender.ssi
                != call.called_addr.ssi) {
                self.reject_call_restore(queue, sender, link, call_id);
                return;
            }
            if call.begin_restore().is_err() {
                self.reject_call_restore(queue, sender, link, call_id);
                return;
            }
            call.active_timer_started = Some(self.dltime);
            // Only grant when the floor is free or the sender already holds it (same decision as
            // the U-TX DEMAND path). Granting while the peer is talking gives two simultaneous
            // transmitters and a stale floor_holder the UL-inactivity watchdog never ceases.
            // Duplex calls keep floor_holder = None, so they still always grant.
            let wants_to_transmit: bool = !pdu.request_to_transmit_send_data;
            let grant = if !call.is_simplex() {
                TransmissionGrant::Granted
            } else if !wants_to_transmit {
                if call.floor_holder.is_some() {
                    TransmissionGrant::GrantedToOtherUser
                } else {
                    TransmissionGrant::NotGranted
                }
            } else if call.floor_holder.is_none() || call.is_floor_held_by(sender.ssi) {
                call.grant_floor(sender);
                TransmissionGrant::Granted
            } else {
                TransmissionGrant::GrantedToOtherUser
            };
            call.complete_restore();
            self.individual_calls.insert(call_id, call);
            self.send_d_call_restore(queue, sender, link, call_id, grant);
            return;
        }

        if let Some(found) = self.active_calls.get(&call_id) {
            let mut call: GroupCall = *found;
            if call.begin_restore().is_err() {
                self.reject_call_restore(queue, sender, link, call_id);
                return;
            }
            let wants_to_transmit: bool = !pdu.request_to_transmit_send_data;
            let grant = if !wants_to_transmit {
                if call.tx_active {
                    TransmissionGrant::GrantedToOtherUser
                } else {
                    TransmissionGrant::NotGranted
                }
            } else if !call.tx_active || call.source_issi == sender.ssi {
                call.grant_floor(sender.ssi, Some(sender));
                TransmissionGrant::Granted
            } else {
                TransmissionGrant::GrantedToOtherUser
            };
            call.complete_restore();
            self.active_calls.insert(call_id, call);
            self.send_d_call_restore(queue, sender, link, call_id, grant);

            // A restore that hands over the floor must arm UMAC's UL-inactivity timer exactly like
            // every other grant path: without the FloorGranted a restored talker that then goes
            // silent pins the traffic slot until the absolute call time-out — forever for a
            // duplex/Infinite call, so repeats exhaust the cell.
            if grant == TransmissionGrant::Granted {
                queue.push(
                    Message::DTxGrantedFacch {
                        call_id,
                        source_issi: sender.ssi,
                        dest_gssi: call.dest_gssi,
                        carrier_num: call.carrier_num,
                        ts: call.ts,
                    },
                );
                let floor = GroupFloorGrant {
                    call_id,
                    source_issi: sender.ssi,
                    dest_gssi: call.dest_gssi,
                    carrier_num: call.carrier_num,
                    ts: call.ts,
                    is_group: true,
                };
                queue.push(
                    Message::FloorGranted {
                        floor,
                        local: true,
                        notification: BrewNotification::IfGroupRoutable(floor.dest_gssi),
                    },
                );
            }
            return;
        }
        self.reject_call_restore(queue, sender, link, call_id);
    }

    /// Tell a terminal that it is back in its call.
    fn send_d_call_restore(
        &self,
        queue: &mut Vec<Message>,
        sender: TetraAddress,
        link: Link,
        call_id: u16,
        grant: TransmissionGrant,
    )
        ensures
            final(queue)@ == old(queue)@.push(
                restored_answer(self.dltime, sender, link, call_id, grant),
            ),
    {
        queue.push(
            Message::DCallRestore {
                dltime: self.dltime,
                to: sender,
                link,
                call_id,
                grant,
                call_status: CallStatus::Callcontinue,
            },
        );
    }

    /// Tell a terminal that its call cannot be restored: it is unknown, not active, or not the
    /// terminal's.
    fn reject_call_restore(
        &self,
        queue: &mut Vec<Message>,
        sender: TetraAddress,
        link: Link,
        call_id: u16,
    )
        ensures
            final(queue)@ == old(queue)@.push(rejected_answer(self.dltime, sender, link, call_id)),
    {
        queue.push(
            Message::DRelease {
                dltime: self.dltime,
                to: sender,
                link,
                call_id,
                cause: DisconnectCause::CallRestorationOfTheOtherUserFailed,
            },
        );
    }
}

/// In a simplex call at most one party may talk: a party that is told it may talk holds the floor
/// afterwards, and a floor that another party holds stays with that party.
pub proof fn law_one_talker_in_a_simplex_call(
    call: IndividualCall,
    sender: TetraAddress,
    wants_to_transmit: bool,
    now: TdmaTime,
)
    requires
        call.simplex,
    ensures
        ({
            let (grant, after) = party_restored(call, sender, wants_to_transmit, now);
            &&& grant is Granted ==> after.floor_holder == Some(sender)
            &&& call.floor_holder is Some && !call.held_by(sender.ssi) ==> grant
                is GrantedToOtherUser && after.floor_holder == call.floor_holder
        }),
{
}

/// In a group call at most one member talks: a member that is told it may talk is the one that
/// talks afterwards, and a call in which another member talks stays as it is.
pub proof fn law_one_talker_in_a_group_call(
    call: GroupCall,
    sender: TetraAddress,
    wants_to_transmit: bool,
)
    ensures
        ({
            let (grant, after) = member_restored(call, sender, wants_to_transmit);
            &&& grant is Granted ==> after.tx_active && after.source_issi == sender.ssi
            &&& call.tx_active && call.source_issi != sender.ssi ==> grant is GrantedToOtherUser
                && after == call
        }),
{
}

/// Who does not ask to talk is not handed the floor, and who asks for a free floor is.
pub proof fn law_the_floor_goes_to_who_asks(
    call: IndividualCall,
    group: GroupCall,
    sender: TetraAddress,
    now: TdmaTime,
)
    requires
        call.simplex,
    ensures
        !(party_restored(call, sender, false, now).0 is Granted),
        party_restored(call, sender, false, now).1.floor_holder == call.floor_holder,
        !(member_restored(group, sender, false).0 is Granted),
        member_restored(group, sender, false).1 == group,
        call.floor_holder is None ==> party_restored(call, sender, true, now).0 is Granted,
        !group.tx_active ==> member_restored(group, sender, true).0 is Granted,
{
}

/// A duplex call lets a party that comes back talk, and leaves the floor alone.
pub proof fn law_a_duplex_call_always_grants(
    call: IndividualCall,
    sender: TetraAddress,
    wants_to_transmit: bool,
    now: TdmaTime,
)
    requires
        !call.simplex,
    ensures
        party_restored(call, sender, wants_to_transmit, now).0 is Granted,
        party_restored(call, sender, wants_to_transmit, now).1.floor_holder == call.floor_holder,
{
}

/// The first message is the answer to the sender: a release, with every call left as it was, or a
/// restoration, after which the call is up. No other call changes. The floor of a group call is
/// announced exactly where it is handed over.
pub proof fn law_every_request_is_answered(
    individual_calls: Map<u16, IndividualCall>,
    active_calls: Map<u16, GroupCall>,
    dltime: TdmaTime,
    sender: TetraAddress,
    link: Link,
    pdu: UCallRestore,
)
    ensures
        ({
            let id = pdu.call_identifier;
            let done = restoration(individual_calls, active_calls, dltime, sender, link, pdu);
            &&& done.messages.len() >= 1
            &&& match done.messages[0] {
                Message::DRelease { to, call_id, .. } => {
                    &&& to == sender && call_id == id
                    &&& done.messages.len() == 1
                    &&& done.individual_calls == individual_calls
                    &&& done.active_calls == active_calls
                },
                Message::DCallRestore { to, call_id, grant, .. } => {
                    &&& to == sender && call_id == id
                    &&& if individual_calls.contains_key(id) {
                        &&& done.messages.len() == 1
                        &&& done.individual_calls[id].phase is Active
                        &&& done.active_calls == active_calls
                    } else {
                        &&& done.active_calls[id].phase is Active
                        &&& done.individual_calls == individual_calls
                        &&& done.messages.drop_first() == if grant is Granted {
                            floor_messages(done.active_calls[id], id, sender.ssi)
                        } else {
                            Seq::empty()
                        }
                    }
                },
                _ => false,
            }
            &&& done.individual_calls.dom() == individual_calls.dom()
            &&& done.active_calls.dom() == active_calls.dom()
            &&& forall|other: u16|
                other != id ==> done.individual_calls[other] == individual_calls[other]
                    && #[trigger] done.active_calls[other] == active_calls[other]
        }),
{
    let id = pdu.call_identifier;
    let done = restoration(individual_calls, active_calls, dltime, sender, link, pdu);
    assert(done.individual_calls.dom() =~= individual_calls.dom());
    assert(done.active_calls.dom() =~= active_calls.dom());
    if done.messages[0] is DCallRestore && !individual_calls.contains_key(id) {
        let grant = done.messages[0]->grant;
        assert(done.messages.drop_first() =~= if grant is Granted {
            floor_messages(done.active_calls[id], id, sender.ssi)
        } else {
            Seq::empty()
        });
    }
}

/// Who is restored and who is released. A terminal is told that it is back in its call exactly where
/// the call is one between two, is up, and is its own, as the calling or as the called party,
/// whoever holds the floor; or where there is no such call and a group call by that number is up.
/// Everybody else is released, with every call left as it was. Either way the answer is the first
/// new message: it goes to the sender, about the call that was asked for, on the link that the
/// request came in on, at the present downlink time.
pub proof fn law_who_is_restored_and_who_is_released(
    sender: TetraAddress,
    handle: u32,
    link_id: u32,
    endpoint_id: u32,
    pdu: UCallRestore,
)
    ensures
        forall|cc: &mut CcBsSubentity, queue: &mut Vec<Message>, r: ()| #[trigger]
            call_ensures(
                CcBsSubentity::fsm_on_u_call_restore,
                (cc, queue, sender, handle, link_id, endpoint_id, pdu),
                r,
            ) ==> {
                let id = pdu.call_identifier;
                let n = queue@.len() as int;
                let own = cc.individual_calls@[id];
                let restored = {
                    ||| {
                        &&& cc.individual_calls@.contains_key(id)
                        &&& own.phase is Active
                        &&& sender.ssi == own.calling_addr.ssi || sender.ssi == own.called_addr.ssi
                    }
                    ||| {
                        &&& !cc.individual_calls@.contains_key(id)
                        &&& cc.active_calls@.contains_key(id)
                        &&& cc.active_calls@[id].phase is Active
                    }
                };
                &&& final(queue)@.len() > n
                &&& final(queue)@.take(n) == queue@
                &&& restored ==> {
                    &&& final(queue)@[n] matches Message::DCallRestore {
                        dltime,
                        to,
                        link,
                        call_id,
                        call_status,
                        ..
                    }
                    &&& dltime == cc.dltime
                    &&& to == sender
                    &&& link.handle == handle && link.link_id == link_id && link.endpoint_id
                        == endpoint_id
                    &&& call_id == id
                    &&& call_status is Callcontinue
                }
                &&& !restored ==> {
                    &&& final(queue)@[n] matches Message::DRelease {
                        dltime,
                        to,
                        link,
                        call_id,
                        cause,
                    }
                    &&& dltime == cc.dltime
                    &&& to == sender
                    &&& link.handle == handle && link.link_id == link_id && link.endpoint_id
                        == endpoint_id
                    &&& call_id == id
                    &&& cause is CallRestorationOfTheOtherUserFailed
                    &&& final(queue)@.len() == n + 1
                    &&& final(cc).individual_calls@ == cc.individual_calls@
                    &&& final(cc).active_calls@ == cc.active_calls@
                }
                &&& final(cc).dltime == cc.dltime
                &&& forall|other: u16|
                    other != id ==> #[trigger] final(cc).individual_calls@.contains_key(other)
                        == cc.individual_calls@.contains_key(other)
                        && final(cc).individual_calls@[other] == cc.individual_calls@[other]
                &&& forall|other: u16|
                    other != id ==> #[trigger] final(cc).active_calls@.contains_key(other)
                        == cc.active_calls@.contains_key(other) && final(cc).active_calls@[other]
                        == cc.active_calls@[other]
            },
{
    assert forall|cc: &mut CcBsSubentity, queue: &mut Vec<Message>, r: ()| #[trigger]
        call_ensures(
            CcBsSubentity::fsm_on_u_call_restore,
            (cc, queue, sender, handle, link_id, endpoint_id, pdu),
            r,
        ) implies final(queue)@.take(queue@.len() as int) == queue@ by {
        assert(final(queue)@.take(queue@.len() as int) =~= queue@);
    }
}

/// What a party is told that comes back into its call, and what becomes of the call. In a duplex
/// call it may talk. In a simplex call it may talk, and holds the floor from then on, where it asks
/// to and nobody else holds it; otherwise it is told that somebody else does, or that it may not.
/// The call is up from the present downlink time on, and is otherwise the same. Nothing else is
/// sent.
pub proof fn law_what_a_restored_party_is_told(
    sender: TetraAddress,
    handle: u32,
    link_id: u32,
    endpoint_id: u32,
    pdu: UCallRestore,
)
    ensures
        forall|cc: &mut CcBsSubentity, queue: &mut Vec<Message>, r: ()| #[trigger]
            call_ensures(
                CcBsSubentity::fsm_on_u_call_restore,
                (cc, queue, sender, handle, link_id, endpoint_id, pdu),
                r,
            ) ==> {
                let id = pdu.call_identifier;
                let n = queue@.len() as int;
                let asks = pdu.request_to_transmit_send_data == false;
                let was = cc.individual_calls@[id];
                let is = final(cc).individual_calls@[id];
                let free = was.floor_holder is None || was.floor_holder.unwrap().ssi == sender.ssi;
                cc.individual_calls@.contains_key(id) && was.phase is Active && (sender.ssi
                    == was.calling_addr.ssi || sender.ssi == was.called_addr.ssi) ==> {
                    &&& final(queue)@.len() == n + 1
                    &&& final(queue)@[n] matches Message::DCallRestore { grant, .. }
                    &&& !was.simplex ==> grant is Granted && is.floor_holder == was.floor_holder
                    &&& was.simplex && asks && free ==> grant is Granted && is.floor_holder == Some(
                        sender,
                    )
                    &&& was.simplex && !(asks && free) ==> {
                        &&& grant is GrantedToOtherUser <==> was.floor_holder is Some
                        &&& grant is NotGranted <==> was.floor_holder is None
                        &&& is.floor_holder == was.floor_holder
                    }
                    &&& final(cc).individual_calls@.contains_key(id)
                    &&& is.phase is Active
                    &&& is.active_timer_started == Some(cc.dltime)
                    &&& is.calling_addr == was.calling_addr
                    &&& is.called_addr == was.called_addr
                    &&& is.simplex == was.simplex
                    &&& final(cc).active_calls@ == cc.active_calls@
                }
            },
{
}

/// What a member is told that comes back into its group call, and what becomes of the call. It may
/// talk, and is the one that talks from then on, where it asks to and nobody else is talking;
/// otherwise it is told that somebody else is, or that it may not, and the call stays as it is.
/// Where it may talk, and only there, the listeners are told so on the call's own channel, and the
/// uplink is watched: a talker that falls silent does not keep the channel.
pub proof fn law_what_a_restored_member_is_told(
    sender: TetraAddress,
    handle: u32,
    link_id: u32,
    endpoint_id: u32,
    pdu: UCallRestore,
)
    ensures
        forall|cc: &mut CcBsSubentity, queue: &mut Vec<Message>, r: ()| #[trigger]
            call_ensures(
                CcBsSubentity::fsm_on_u_call_restore,
                (cc, queue, sender, handle, link_id, endpoint_id, pdu),
                r,
            ) ==> {
                let id = pdu.call_identifier;
                let n = queue@.len() as int;
                let asks = pdu.request_to_transmit_send_data == false;
                let was = cc.active_calls@[id];
                let is = final(cc).active_calls@[id];
                let free = !was.tx_active || was.source_issi == sender.ssi;
                !cc.individual_calls@.contains_key(id) && cc.active_calls@.contains_key(id)
                    && was.phase is Active ==> {
                    &&& final(queue)@[n] matches Message::DCallRestore { grant, .. }
                    &&& grant is Granted <==> asks && free
                    &&& grant is GrantedToOtherUser <==> !(asks && free) && was.tx_active
                    &&& grant is NotGranted <==> !(asks && free) && !was.tx_active
                    &&& asks && free ==> {
                        &&& is.tx_active
                        &&& is.source_issi == sender.ssi
                        &&& is.source_addr == Some(sender)
                        &&& final(queue)@.len() == n + 3
                        &&& final(queue)@[n + 1] == (Message::DTxGrantedFacch {
                            call_id: id,
                            source_issi: sender.ssi,
                            dest_gssi: was.dest_gssi,
                            carrier_num: was.carrier_num,
                            ts: was.ts,
                        })
                        &&& final(queue)@[n + 2] matches Message::FloorGranted {
                            floor,
                            local,
                            notification,
                        }
                        &&& floor.call_id == id
                        &&& floor.source_issi == sender.ssi
                        &&& floor.dest_gssi == was.dest_gssi
                        &&& floor.carrier_num == was.carrier_num
                        &&& floor.ts == was.ts
                        &&& floor.is_group
                        &&& local
                        &&& notification == BrewNotification::IfGroupRoutable(was.dest_gssi)
                    }
                    &&& !(asks && free) ==> {
                        &&& final(queue)@.len() == n + 1
                        &&& is.tx_active == was.tx_active
                        &&& is.source_issi == was.source_issi
                        &&& is.source_addr == was.source_addr
                    }
                    &&& final(cc).active_calls@.contains_key(id)
                    &&& is.phase is Active
                    &&& is.dest_gssi == was.dest_gssi
                    &&& is.carrier_num == was.carrier_num
                    &&& is.ts == was.ts
                    &&& final(cc).individual_calls@ == cc.individual_calls@
                }
            },
{
}

/// A terminal can ask to be brought back whatever call it names, and whoever it is.
pub proof fn law_anybody_can_ask_to_be_restored(
    sender: TetraAddress,
    handle: u32,
    link_id: u32,
    endpoint_id: u32,
    pdu: UCallRestore,
)
    ensures
        forall|cc: &mut CcBsSubentity, queue: &mut Vec<Message>|
            call_requires(
                CcBsSubentity::fsm_on_u_call_restore,
                (cc, queue, sender, handle, link_id, endpoint_id, pdu),
            ),
{
}

} // verus!
