//! What is done with each captured frame: the TCP payload is taken out, held
//! back until the warm-up has ended, and handed to the pipeline.

use crate::packet_factory::{factory_step, FactoryView, RotmgPacketFactory};
use crate::rc4::DEFAULT_ALIGN_BOUND;
use crate::rotmg_packet::{PacketView, RotmgPacket};
use crate::rotmg_packet_decryptor::{packets_view, DecryptError, DecryptorView};
use crate::rotmg_packet_stitcher::stitch;
use etherparse::{InternetSlice, SlicedPacket, TransportSlice};
use vstd::prelude::*;

verus! {

/// The payload length of a TCP segment that fills a standard Ethernet frame.
/// A shorter payload ends a burst, so that what follows it is likely to start
/// on a frame boundary.
pub const FULL_SEGMENT_LEN: usize = 1460;

/// The port from which the server sends.
pub const SERVER_PORT: u16 = 2050;

/// The filter that selects the server-to-client direction at capture.
pub const CAPTURE_FILTER: &'static str = "ip proto \\tcp and src port 2050";

/// What the headers of a captured frame say of its TCP segment, and the
/// bytes behind them.
#[derive(Clone, Debug, PartialEq, Eq)]
pub struct TcpSegment {
    /// The port that the segment was sent from.
    pub source_port: u16,
    /// The length of the IP payload, as the IP header gives it.
    pub ip_payload_len: u16,
    /// The length of the TCP header in 32-bit words.
    pub tcp_data_offset: u8,
    /// The bytes behind the TCP header.
    pub payload: Vec<u8>,
}

impl View for TcpSegment {
    type V = SegmentView;

    open spec fn view(&self) -> SegmentView {
        SegmentView {
            source_port: self.source_port,
            ip_payload_len: self.ip_payload_len,
            tcp_data_offset: self.tcp_data_offset,
            payload: self.payload@,
        }
    }
}

/// A dissected segment as a value.
pub ghost struct SegmentView {
    pub source_port: u16,
    pub ip_payload_len: u16,
    pub tcp_data_offset: u8,
    pub payload: Seq<u8>,
}

/// What `etherparse` makes of a captured Ethernet frame that carries TCP
/// over IPv4 or IPv6: the source port, the IP payload length, the TCP data
/// offset and the bytes behind the TCP header. `None` for any other frame.
pub uninterp spec fn ethernet_tcp_segment(frame: Seq<u8>) -> Option<SegmentView>;

/// `etherparse::SlicedPacket::from_ethernet`, with the header fields read
/// from the slices it returns: the result is what [`ethernet_tcp_segment`]
/// names, and nothing where the frame cannot be parsed or holds no TCP
/// segment over IP.
#[verifier::external_body]
fn slice_tcp_segment(frame: &[u8]) -> (r: Option<TcpSegment>)
    ensures
        match r {
            Some(segment) => ethernet_tcp_segment(frame@) == Some(segment@),
            None => ethernet_tcp_segment(frame@) is None,
        },
{
    let sliced = SlicedPacket::from_ethernet(frame).ok()?;
    let (source_port, tcp_data_offset) = match sliced.transport? {
        TransportSlice::Tcp(tcp) => (tcp.source_port(), tcp.data_offset()),
        _ => return None,
    };
    let ip_payload_len = match sliced.ip? {
        InternetSlice::Ipv4(ip, _) => ip.payload_len(),
        InternetSlice::Ipv6(ip, _) => ip.payload_length(),
    };
    let payload = sliced.payload.to_vec();
    Some(TcpSegment { source_port, ip_payload_len, tcp_data_offset, payload })
}

/// The number of data bytes that the headers declare: the IP payload
/// without the TCP header.
pub open spec fn declared_data_len(ip_payload_len: u16, tcp_data_offset: u8) -> int {
    ip_payload_len - tcp_data_offset * 4
}

/// The capture session as a value.
pub ghost struct SnifferView {
    /// Whether a payload shorter than a full segment has been seen.
    pub warmed_up: bool,
    /// The pipeline.
    pub factory: FactoryView,
    /// The typed frames decoded and not yet drained.
    pub session: Seq<PacketView>,
}

/// Whether a captured frame holds a TCP segment that the server has sent
/// and that declares data.
pub open spec fn carries_data(segment: Option<SegmentView>) -> bool {
    match segment {
        None => false,
        Some(s) => s.source_port == SERVER_PORT && declared_data_len(
            s.ip_payload_len,
            s.tcp_data_offset,
        ) > 0,
    }
}

/// Whether a segment is passed on: it declares data and comes after the
/// warm-up.
pub open spec fn forwards(warmed_up: bool, segment: Option<SegmentView>) -> bool {
    warmed_up && carries_data(segment)
}

/// Whether a segment ends the warm-up: it declares data and its payload is
/// shorter than that of a full segment.
pub open spec fn ends_warm_up(segment: Option<SegmentView>) -> bool {
    carries_data(segment) && payload_of(segment).len() < FULL_SEGMENT_LEN
}

/// The bytes behind the TCP header of a dissected segment.
pub open spec fn payload_of(segment: Option<SegmentView>) -> Seq<u8> {
    match segment {
        Some(s) => s.payload,
        None => Seq::empty(),
    }
}

/// The session after a captured frame has been dissected into `segment`.
pub open spec fn sniffer_step(
    view: SnifferView,
    segment: Option<SegmentView>,
) -> SnifferView {
    if forwards(view.warmed_up, segment) {
        let payload = payload_of(segment);
        let fed = factory_step(view.factory, payload);
        SnifferView {
            warmed_up: true,
            factory: FactoryView {
                queue: stitch(view.factory.queue + payload).1,
                pending: fed.pending,
                decryptor: fed.decryptor,
                output: Seq::empty(),
            },
            session: view.session + fed.output,
        }
    } else if ends_warm_up(segment) {
        SnifferView { warmed_up: true, ..view }
    } else {
        view
    }
}

/// What processing reports for a frame dissected into `segment`: whether it
/// was passed on, or why the pipeline refused a tick frame.
pub open spec fn sniffer_report(view: SnifferView, segment: Option<SegmentView>) -> Result<
    bool,
    DecryptError,
> {
    if forwards(view.warmed_up, segment) {
        match factory_step(view.factory, payload_of(segment)).error {
            Some(e) => Err(e),
            None => Ok(true),
        }
    } else {
        Ok(false)
    }
}

/// The part of a capture session that decides: the warm-up filter, the
/// pipeline, and the typed frames gathered for the host.
#[derive(Debug)]
pub struct Sniffer {
    factory: RotmgPacketFactory,
    received_nonmax_packet: bool,
    session_buffer: Vec<RotmgPacket>,
}

impl View for Sniffer {
    type V = SnifferView;

    closed spec fn view(&self) -> SnifferView {
        SnifferView {
            warmed_up: self.received_nonmax_packet,
            factory: self.factory@,
            session: packets_view(self.session_buffer@),
        }
    }
}

impl Sniffer {
    /// Every typed frame that the pipeline has produced has been moved to
    /// the session.
    #[verifier::type_invariant]
    spec fn drained(self) -> bool {
        self.factory@.output.len() == 0
    }

    /// A session that has seen nothing.
    pub fn new() -> (sniffer: Self)
        ensures
            sniffer@ == (SnifferView {
                warmed_up: false,
                factory: FactoryView {
                    queue: Seq::empty(),
                    pending: Seq::empty(),
                    decryptor: DecryptorView {
                        offset: 0,
                        record: None,
                        max_align_bytes: DEFAULT_ALIGN_BOUND as int,
                    },
                    output: Seq::empty(),
                },
                session: Seq::empty(),
            }),
    {
        Self::with_factory(RotmgPacketFactory::new())
    }

    /// A session that has seen nothing and runs `factory`, from which every
    /// typed frame has been fetched.
    pub fn with_factory(factory: RotmgPacketFactory) -> (sniffer: Self)
        requires
            factory@.output.len() == 0,
        ensures
            sniffer@ == (SnifferView {
                warmed_up: false,
                factory: factory@,
                session: Seq::empty(),
            }),
    {
        let sniffer = Sniffer {
            factory,
            received_nonmax_packet: false,
            session_buffer: Vec::new(),
        };
        assert(packets_view(sniffer.session_buffer@) =~= Seq::<PacketView>::empty());
        sniffer
    }

    /// Dissect a captured Ethernet frame and process the segment it holds.
    pub fn process_packet(&mut self, frame: &[u8]) -> (r: Result<bool, DecryptError>)
        ensures
            final(self)@ == sniffer_step(old(self)@, ethernet_tcp_segment(frame@)),
            r == sniffer_report(old(self)@, ethernet_tcp_segment(frame@)),
    {
        self.process_segment(slice_tcp_segment(frame))
    }

    /// Process a dissected segment. A frame without a TCP segment, and a
    /// segment that the server has not sent or that declares no data, is
    /// ignored. The first payload shorter
    /// than a full segment ends the warm-up and is itself held back, since
    /// the frame boundary is expected behind it; every payload after it is
    /// passed on to the pipeline, whose typed frames join the session.
    pub fn process_segment(&mut self, segment: Option<TcpSegment>) -> (r: Result<
        bool,
        DecryptError,
    >)
        ensures
            final(self)@ == sniffer_step(old(self)@, segment_view(segment)),
            r == sniffer_report(old(self)@, segment_view(segment)),
    {
        proof {
            use_type_invariant(&*self);
        }
        let segment: TcpSegment = match segment {
            Some(s) => s,
            None => {
                return Ok(false);
            },
        };
        if segment.source_port != SERVER_PORT || segment.ip_payload_len as u32
            <= segment.tcp_data_offset as u32 * 4 {
            return Ok(false);
        }
        if !self.received_nonmax_packet {
            if segment.payload.len() < FULL_SEGMENT_LEN {
                self.received_nonmax_packet = true;
            }
            return Ok(false);
        }
        let ghost session = self.session_buffer@;
        let mut factory: RotmgPacketFactory = RotmgPacketFactory::new();
        std::mem::swap(&mut factory, &mut self.factory);
        let outcome: Result<(), DecryptError> = factory.insert_packet(segment.payload.as_slice());
        let mut produced: Vec<RotmgPacket> = factory.get_packets();
        let ghost added = produced@;
        self.factory = factory;
        let mut gathered: Vec<RotmgPacket> = Vec::new();
        std::mem::swap(&mut gathered, &mut self.session_buffer);
        gathered.append(&mut produced);
        self.session_buffer = gathered;
        proof {
            assert(packets_view(self.session_buffer@) =~= packets_view(session) + packets_view(
                added,
            ));
            assert(old(self)@.factory.output =~= Seq::<PacketView>::empty());
            assert(Seq::<PacketView>::empty() + packets_view(added) =~= packets_view(added));
        }
        match outcome {
            Ok(_) => Ok(true),
            Err(e) => Err(e),
        }
    }

    /// Take all typed frames gathered so far, oldest first.
    pub fn drain(&mut self) -> (out: Vec<RotmgPacket>)
        ensures
            packets_view(out@) == old(self)@.session,
            final(self)@ == (SnifferView { session: Seq::empty(), ..old(self)@ }),
    {
        proof {
            use_type_invariant(&*self);
        }
        let mut out: Vec<RotmgPacket> = Vec::new();
        std::mem::swap(&mut out, &mut self.session_buffer);
        proof {
            assert(packets_view(self.session_buffer@) =~= Seq::<PacketView>::empty());
        }
        out
    }

    /// Forget everything: the pipeline is reset, warm-up starts over and the
    /// gathered frames are dropped.
    pub fn reset(&mut self)
        ensures
            final(self)@.warmed_up == false,
            final(self)@.session == Seq::<PacketView>::empty(),
            final(self)@.factory == (FactoryView {
                queue: Seq::empty(),
                pending: Seq::empty(),
                decryptor: DecryptorView {
                    offset: 0,
                    record: None,
                    max_align_bytes: old(self)@.factory.decryptor.max_align_bytes,
                },
                output: Seq::empty(),
            }),
    {
        proof {
            use_type_invariant(&*self);
        }
        let mut factory: RotmgPacketFactory = RotmgPacketFactory::new();
        std::mem::swap(&mut factory, &mut self.factory);
        factory.reset();
        self.factory = factory;
        self.received_nonmax_packet = false;
        self.session_buffer = Vec::new();
        proof {
            assert(packets_view(self.session_buffer@) =~= Seq::<PacketView>::empty());
        }
    }
}

/// A dissected segment, if any, as a value.
pub open spec fn segment_view(segment: Option<TcpSegment>) -> Option<SegmentView> {
    match segment {
        Some(s) => Some(s@),
        None => None,
    }
}

} // verus!
