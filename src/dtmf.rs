use vstd::prelude::*;

verus! {

/// Highest telephone-event code defined for keypad signalling (`D`).
pub const DTMF_EVENT_D: u8 = 15;

/// Two end packets of the same event closer than this are one key press.
pub const DUPLICATE_WINDOW: u64 = 100;

/// One telephone-event payload, as read from its first four bytes.
pub struct DtmfPayload {
    pub event: u8,
    pub is_end: bool,
    pub reserved: u8,
    pub volume: u8,
    pub duration: u16,
}

/// The payload that four or more bytes describe, or `None` where they are
/// too few or name an event above `D`.
pub open spec fn parse_spec(p: Seq<u8>) -> Option<DtmfPayload> {
    if p.len() < 4 || p[0] > DTMF_EVENT_D {
        None
    } else {
        Some(
            DtmfPayload {
                event: p[0],
                is_end: p[1] & 0x80u8 != 0,
                reserved: p[1] & 0x7fu8,
                volume: p[2] & 0x3fu8,
                duration: p[3] as u16,
            },
        )
    }
}

/// The keypad symbol of an event code.
pub open spec fn symbol_of(event: u8) -> char {
    if event <= 9 {
        ((event + 48) as u8) as char
    } else if event == 10 {
        '*'
    } else if event == 11 {
        '#'
    } else {
        ((event - 12 + 65) as u8) as char
    }
}

impl DtmfPayload {
    pub fn parse(payload: &[u8]) -> (r: Option<DtmfPayload>)
        ensures
            r == parse_spec(payload@),
    {
        if payload.len() < 4 {
            return None;
        }
        let event = payload[0];
        if event > DTMF_EVENT_D {
            return None;
        }
        let is_end = (payload[1] & 0b1000_0000u8) != 0;
        let reserved = payload[1] & 0b0111_1111u8;
        let volume = payload[2] & 0b0011_1111u8;
        let duration = payload[3] as u16;
        Some(DtmfPayload { event, is_end, reserved, volume, duration })
    }
}

/// Per-stream detector state: the event and duration last reported.
pub struct DtmfDetector {
    pub last_event: u8,
    pub last_duration: u64,
}

/// An end packet that repeats the last reported event without its duration
/// having moved clearly past the last reported one.
pub open spec fn is_duplicate(event: u8, duration: u64, last_event: u8, last_duration: u64) -> bool {
    event == last_event && (duration <= last_duration || duration - last_duration
        < DUPLICATE_WINDOW)
}

/// Whether a payload type lies in the dynamic range used for telephone events.
pub open spec fn is_event_payload_type(payload_type: u8) -> bool {
    96 <= payload_type <= 127
}

impl DtmfDetector {
    /// Whether `detect_rtp` reports the given packet in this state.
    pub open spec fn reports(self, payload_type: u8, payload: Seq<u8>) -> bool {
        &&& is_event_payload_type(payload_type)
        &&& parse_spec(payload) is Some
        &&& parse_spec(payload).unwrap().is_end
        &&& !is_duplicate(
            parse_spec(payload).unwrap().event,
            parse_spec(payload).unwrap().duration as u64,
            self.last_event,
            self.last_duration,
        )
    }

    pub fn new() -> (r: DtmfDetector)
        ensures
            r.last_event == 0,
            r.last_duration == 0,
    {
        DtmfDetector { last_event: 0, last_duration: 0 }
    }

    /// Reports the keypad symbol of a confirmed, not yet reported end of a
    /// telephone event, and remembers it.
    pub fn detect_rtp(&mut self, payload_type: u8, payload: &[u8]) -> (r: Option<String>)
        ensures
            old(self).reports(payload_type, payload@) ==> {
                let p = parse_spec(payload@).unwrap();
                &&& r is Some
                &&& r.unwrap()@ == seq![symbol_of(p.event)]
                &&& final(self).last_event == p.event
                &&& final(self).last_duration == p.duration as u64
            },
            !old(self).reports(payload_type, payload@) ==> r is None && *final(self) == *old(
                self,
            ),
    {
        if payload.len() < 4 {
            return None;
        }
        if payload_type < 96 || payload_type > 127 {
            return None;
        }
        let dtmf_payload = match DtmfPayload::parse(payload) {
            Some(p) => p,
            None => return None,
        };
        if !dtmf_payload.is_end {
            return None;
        }
        let current_duration = dtmf_payload.duration as u64;
        if dtmf_payload.event == self.last_event && (current_duration <= self.last_duration
            || current_duration - self.last_duration < DUPLICATE_WINDOW) {
            return None;
        }
        self.last_event = dtmf_payload.event;
        self.last_duration = current_duration;
        Some(event_symbol(dtmf_payload.event))
    }
}

/// The keypad symbol of an event code, as text.
pub fn event_symbol(event: u8) -> (r: String)
    requires
        event <= DTMF_EVENT_D,
    ensures
        r@ == seq![symbol_of(event)],
{
    let s: &str = match event {
        0 => "0",
        1 => "1",
        2 => "2",
        3 => "3",
        4 => "4",
        5 => "5",
        6 => "6",
        7 => "7",
        8 => "8",
        9 => "9",
        10 => "*",
        11 => "#",
        12 => "A",
        13 => "B",
        14 => "C",
        _ => "D",
    };
    proof {
        reveal_strlit("0");
        reveal_strlit("1");
        reveal_strlit("2");
        reveal_strlit("3");
        reveal_strlit("4");
        reveal_strlit("5");
        reveal_strlit("6");
        reveal_strlit("7");
        reveal_strlit("8");
        reveal_strlit("9");
        reveal_strlit("*");
        reveal_strlit("#");
        reveal_strlit("A");
        reveal_strlit("B");
        reveal_strlit("C");
        reveal_strlit("D");
    }
    s.to_owned()
}

} // verus!
