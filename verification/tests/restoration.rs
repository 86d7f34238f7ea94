use std::collections::HashMap;

use flowstation::cmce::calls::{
    BrewNotification, CallPhase, CallStatus, CcBsSubentity, DisconnectCause, GroupCall,
    GroupFloorGrant, IndividualCall, Link, Message, TetraAddress, TransmissionGrant, UCallRestore,
};
use flowstation::tdma_time::TdmaTime;

const A: TetraAddress = TetraAddress { ssi: 1001 };
const B: TetraAddress = TetraAddress { ssi: 1002 };
const C: TetraAddress = TetraAddress { ssi: 1003 };
const NOW: TdmaTime = TdmaTime { h: 5, m: 6, f: 7, t: 2 };
const LINK: Link = Link { handle: 11, link_id: 12, endpoint_id: 13 };

fn individual(simplex: bool, floor_holder: Option<TetraAddress>) -> IndividualCall {
    IndividualCall {
        calling_addr: A,
        called_addr: B,
        phase: CallPhase::Active,
        simplex,
        floor_holder,
        active_timer_started: None,
    }
}

fn group(tx_active: bool, source_issi: u32) -> GroupCall {
    GroupCall {
        phase: CallPhase::Active,
        tx_active,
        source_issi,
        source_addr: None,
        dest_gssi: 9001,
        carrier_num: 1521,
        ts: 3,
    }
}

fn entity(one: Option<IndividualCall>, many: Option<GroupCall>) -> CcBsSubentity {
    let mut cc = CcBsSubentity {
        individual_calls: HashMap::new(),
        active_calls: HashMap::new(),
        dltime: NOW,
    };
    if let Some(call) = one {
        cc.individual_calls.insert(4, call);
    }
    if let Some(call) = many {
        cc.active_calls.insert(4, call);
    }
    cc
}

/// A U-CALL RESTORE for call 4: the bit is 0 where the terminal asks to transmit.
fn restore(cc: &mut CcBsSubentity, sender: TetraAddress, asks: bool) -> Vec<Message> {
    let mut queue = Vec::new();
    let pdu = UCallRestore { call_identifier: 4, request_to_transmit_send_data: !asks };
    cc.fsm_on_u_call_restore(&mut queue, sender, 11, 12, 13, pdu);
    queue
}

fn restored(to: TetraAddress, grant: TransmissionGrant) -> Message {
    Message::DCallRestore {
        dltime: NOW,
        to,
        link: LINK,
        call_id: 4,
        grant,
        call_status: CallStatus::Callcontinue,
    }
}

fn rejected(to: TetraAddress) -> Message {
    Message::DRelease {
        dltime: NOW,
        to,
        link: LINK,
        call_id: 4,
        cause: DisconnectCause::CallRestorationOfTheOtherUserFailed,
    }
}

#[test]
fn unknown_inactive_and_foreign_calls_are_released() {
    assert_eq!(restore(&mut entity(None, None), A, true), vec![rejected(A)]);
    assert_eq!(restore(&mut entity(Some(individual(true, None)), None), C, true), vec![rejected(C)]);
    for phase in [CallPhase::Setup, CallPhase::Restoring, CallPhase::Releasing] {
        let call = IndividualCall { phase, ..individual(true, None) };
        let mut cc = entity(Some(call), None);
        assert_eq!(restore(&mut cc, A, true), vec![rejected(A)]);
        assert_eq!(cc.individual_calls.get(&4), Some(&call));
        let call = GroupCall { phase, ..group(false, 0) };
        let mut cc = entity(None, Some(call));
        assert_eq!(restore(&mut cc, A, true), vec![rejected(A)]);
        assert_eq!(cc.active_calls.get(&4), Some(&call));
    }
}

#[test]
fn a_free_floor_goes_to_the_party_that_asks() {
    let mut cc = entity(Some(individual(true, None)), None);
    assert_eq!(restore(&mut cc, B, true), vec![restored(B, TransmissionGrant::Granted)]);
    let call = cc.individual_calls[&4];
    assert_eq!(call.floor_holder, Some(B));
    assert_eq!(call.active_timer_started, Some(NOW));
    assert_eq!(call.phase, CallPhase::Active);

    // Who only listens is not handed the floor.
    let mut cc = entity(Some(individual(true, None)), None);
    assert_eq!(restore(&mut cc, B, false), vec![restored(B, TransmissionGrant::NotGranted)]);
    assert_eq!(cc.individual_calls[&4].floor_holder, None);
}

#[test]
fn a_floor_that_is_held_stays() {
    for asks in [true, false] {
        let mut cc = entity(Some(individual(true, Some(A))), None);
        assert_eq!(
            restore(&mut cc, B, asks),
            vec![restored(B, TransmissionGrant::GrantedToOtherUser)]
        );
        assert_eq!(cc.individual_calls[&4].floor_holder, Some(A));
    }
    // The holder itself may go on talking, or be told that the floor is taken if it does not ask.
    let mut cc = entity(Some(individual(true, Some(A))), None);
    assert_eq!(restore(&mut cc, A, true), vec![restored(A, TransmissionGrant::Granted)]);
    assert_eq!(
        restore(&mut cc, A, false),
        vec![restored(A, TransmissionGrant::GrantedToOtherUser)]
    );
}

#[test]
fn a_duplex_call_always_grants() {
    for asks in [true, false] {
        let mut cc = entity(Some(individual(false, None)), None);
        assert_eq!(restore(&mut cc, A, asks), vec![restored(A, TransmissionGrant::Granted)]);
        assert_eq!(cc.individual_calls[&4].floor_holder, None);
    }
}

#[test]
fn a_group_floor_is_announced_where_it_is_handed_over() {
    let mut cc = entity(None, Some(group(false, 1002)));
    let floor = GroupFloorGrant {
        call_id: 4,
        source_issi: 1001,
        dest_gssi: 9001,
        carrier_num: 1521,
        ts: 3,
        is_group: true,
    };
    assert_eq!(
        restore(&mut cc, A, true),
        vec![
            restored(A, TransmissionGrant::Granted),
            Message::DTxGrantedFacch {
                call_id: 4,
                source_issi: 1001,
                dest_gssi: 9001,
                carrier_num: 1521,
                ts: 3,
            },
            Message::FloorGranted {
                floor,
                local: true,
                notification: BrewNotification::IfGroupRoutable(9001),
            },
        ]
    );
    let call = cc.active_calls[&4];
    assert!(call.tx_active);
    assert_eq!((call.source_issi, call.source_addr), (1001, Some(A)));
    // The talker may go on; another member may not.
    assert_eq!(restore(&mut cc, A, true).len(), 3);
    assert_eq!(
        restore(&mut cc, B, true),
        vec![restored(B, TransmissionGrant::GrantedToOtherUser)]
    );
    assert_eq!(
        restore(&mut cc, B, false),
        vec![restored(B, TransmissionGrant::GrantedToOtherUser)]
    );
    assert_eq!(cc.active_calls[&4].source_issi, 1001);
    let mut silent = entity(None, Some(group(false, 1002)));
    assert_eq!(restore(&mut silent, A, false), vec![restored(A, TransmissionGrant::NotGranted)]);
    assert!(!silent.active_calls[&4].tx_active);
}

#[test]
fn other_calls_and_earlier_messages_stay() {
    let mut cc = entity(Some(individual(true, None)), Some(group(true, 1002)));
    cc.individual_calls.insert(5, individual(true, Some(B)));
    cc.active_calls.insert(6, group(true, 7));
    let mut queue = vec![rejected(C)];
    let pdu = UCallRestore { call_identifier: 4, request_to_transmit_send_data: false };
    cc.fsm_on_u_call_restore(&mut queue, A, 11, 12, 13, pdu);
    // A call between two parties is looked for before a group call.
    assert_eq!(queue, vec![rejected(C), restored(A, TransmissionGrant::Granted)]);
    assert_eq!(cc.active_calls[&4], group(true, 1002));
    assert_eq!(cc.individual_calls[&5], individual(true, Some(B)));
    assert_eq!(cc.active_calls[&6], group(true, 7));
    assert_eq!(cc.dltime, NOW);
}
