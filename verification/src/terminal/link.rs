//! The framed channel between a shim and this server.
//!
//! Each message is `[tag:1][len:4 big endian][payload]`. Length-prefixed
//! because a stream has no message boundaries, and a reader that guessed them
//! from chunk arrival would split a resize in half under load.
use vstd::prelude::*;
use crate::bytes::{be16, be32, bytes_of, from_be16, from_be32, lemma_be16_roundtrip, lemma_be32_roundtrip, push_all, push_be16, push_be32};

verus! {

/// One message on the downlink: keystrokes for the shell, or the geometry the
/// pane is to be held at.
#[derive(Debug, Clone, PartialEq, Eq)]
pub enum Downlink {
    /// Bytes for the shell, already encoded by the server's key table.
    Input(Vec<u8>),
    /// Hold the pty at this size until told otherwise.
    Resize { cols: u16, rows: u16 },
}

/// A downlink message as values.
pub enum DownlinkView {
    Input(Seq<u8>),
    Resize { cols: u16, rows: u16 },
}

/// One message on the uplink: the pty's output, or the size the pty now has.
#[derive(Debug, Clone, PartialEq, Eq)]
pub enum Uplink {
    /// The pty's output, exactly as the program produced it.
    Output(Vec<u8>),
    /// The pty is now this size, because the terminal the shim sits in is.
    Resized { cols: u16, rows: u16 },
}

/// An uplink message as values.
pub enum UplinkView {
    Output(Seq<u8>),
    Resized { cols: u16, rows: u16 },
}

/// A whole frame: the tag, the payload's length and the payload.
pub open spec fn frame(tag: u8, payload: Seq<u8>) -> Seq<u8> {
    seq![tag] + be32(payload.len() as u32) + payload
}

/// The length a five-byte header names.
pub open spec fn header_length(header: Seq<u8>) -> u32 {
    from_be32(header[1], header[2], header[3], header[4])
}

impl View for Downlink {
    type V = DownlinkView;

    open spec fn view(&self) -> DownlinkView {
        match self {
            Downlink::Input(bytes) => DownlinkView::Input(bytes@),
            Downlink::Resize { cols, rows } => DownlinkView::Resize { cols: *cols, rows: *rows },
        }
    }
}

impl View for Uplink {
    type V = UplinkView;

    open spec fn view(&self) -> UplinkView {
        match self {
            Uplink::Output(bytes) => UplinkView::Output(bytes@),
            Uplink::Resized { cols, rows } => UplinkView::Resized { cols: *cols, rows: *rows },
        }
    }
}

impl DownlinkView {
    pub open spec fn tag(self) -> u8 {
        match self {
            DownlinkView::Input(_) => 0,
            DownlinkView::Resize { .. } => 1,
        }
    }

    pub open spec fn payload(self) -> Seq<u8> {
        match self {
            DownlinkView::Input(bytes) => bytes,
            DownlinkView::Resize { cols, rows } => be16(cols) + be16(rows),
        }
    }

    /// The bytes `encode` writes.
    pub open spec fn encoded(self) -> Seq<u8> {
        frame(self.tag(), self.payload())
    }

    /// The message a tag and its payload describe; an unknown tag, or a resize
    /// too short to hold two sizes, describes none.
    pub open spec fn decoded(tag: u8, payload: Seq<u8>) -> Option<DownlinkView> {
        if tag == 0 {
            Some(DownlinkView::Input(payload))
        } else if tag == 1 && payload.len() >= 4 {
            Some(
                DownlinkView::Resize {
                    cols: from_be16(payload[0], payload[1]),
                    rows: from_be16(payload[2], payload[3]),
                },
            )
        } else {
            None
        }
    }
}

impl UplinkView {
    pub open spec fn tag(self) -> u8 {
        match self {
            UplinkView::Output(_) => 0,
            UplinkView::Resized { .. } => 1,
        }
    }

    pub open spec fn payload(self) -> Seq<u8> {
        match self {
            UplinkView::Output(bytes) => bytes,
            UplinkView::Resized { cols, rows } => be16(cols) + be16(rows),
        }
    }

    /// The bytes `encode` writes.
    pub open spec fn encoded(self) -> Seq<u8> {
        frame(self.tag(), self.payload())
    }

    /// The message a tag and its payload describe; an unknown tag, or a resize
    /// too short to hold two sizes, describes none.
    pub open spec fn decoded(tag: u8, payload: Seq<u8>) -> Option<UplinkView> {
        if tag == 0 {
            Some(UplinkView::Output(payload))
        } else if tag == 1 && payload.len() >= 4 {
            Some(
                UplinkView::Resized {
                    cols: from_be16(payload[0], payload[1]),
                    rows: from_be16(payload[2], payload[3]),
                },
            )
        } else {
            None
        }
    }
}

/// The whole frame for a tag and a payload.
fn write_frame(tag: u8, payload: &[u8]) -> (out: Vec<u8>)
    ensures
        out@ == frame(tag, payload@),
{
    let mut out: Vec<u8> = Vec::new();
    out.push(tag);
    push_be32(&mut out, payload.len() as u32);
    push_all(&mut out, payload);
    out
}

/// Two sizes as a resize payload.
fn size_payload(cols: u16, rows: u16) -> (out: Vec<u8>)
    ensures
        out@ == be16(cols) + be16(rows),
{
    let mut out: Vec<u8> = Vec::new();
    push_be16(&mut out, cols);
    push_be16(&mut out, rows);
    out
}

/// The length a header names, refused past `max`.
fn named_length(header: [u8; 5], max: usize) -> (len: Option<usize>)
    ensures
        len == (if header_length(header@) <= max {
            Some(header_length(header@) as usize)
        } else {
            None::<usize>
        }),
{
    let value: u32 = header[1] as u32 * 0x100_0000 + header[2] as u32 * 0x1_0000 + header[3] as u32
        * 256 + header[4] as u32;
    if value as usize <= max {
        Some(value as usize)
    } else {
        None
    }
}

impl Downlink {
    pub const INPUT: u8 = 0;
    pub const RESIZE: u8 = 1;
    pub const HEADER_BYTES: usize = 5;
    /// Refused rather than truncated: the far end is another process, and a
    /// hostile or confused length must not make this one allocate for it.
    pub const MAX_PAYLOAD: usize = 65536;

    /// The framed bytes of this message.
    pub fn encode(&self) -> (out: Vec<u8>)
        ensures
            out@ == self@.encoded(),
    {
        match self {
            Downlink::Input(bytes) => write_frame(Self::INPUT, bytes.as_slice()),
            Downlink::Resize { cols, rows } => {
                let payload = size_payload(*cols, *rows);
                write_frame(Self::RESIZE, payload.as_slice())
            },
        }
    }

    /// The message a header's tag and its body describe. An unknown tag is
    /// `None` rather than an error, so a peer from a newer build is skipped.
    pub fn decode(tag: u8, payload: &[u8]) -> (msg: Option<Self>)
        ensures
            match msg {
                Some(m) => DownlinkView::decoded(tag, payload@) == Some(m@),
                None => DownlinkView::decoded(tag, payload@) is None,
            },
    {
        if tag == Self::INPUT {
            Some(Downlink::Input(bytes_of(payload)))
        } else if tag == Self::RESIZE && payload.len() >= 4 {
            Some(
                Downlink::Resize {
                    cols: payload[0] as u16 * 256 + payload[1] as u16,
                    rows: payload[2] as u16 * 256 + payload[3] as u16,
                },
            )
        } else {
            None
        }
    }

    /// The payload length a header names, refused if it is past the cap.
    pub fn payload_length(header: [u8; 5]) -> (len: Option<usize>)
        ensures
            len == (if header_length(header@) <= 65536 {
                Some(header_length(header@) as usize)
            } else {
                None::<usize>
            }),
    {
        named_length(header, Self::MAX_PAYLOAD)
    }
}

impl Uplink {
    pub const OUTPUT: u8 = 0;
    pub const RESIZED: u8 = 1;
    pub const HEADER_BYTES: usize = 5;
    /// Larger than the downlink's, because this carries screenfuls rather
    /// than keystrokes. Still bounded: the far end is another process.
    pub const MAX_PAYLOAD: usize = 262144;

    /// The framed bytes of this message.
    pub fn encode(&self) -> (out: Vec<u8>)
        ensures
            out@ == self@.encoded(),
    {
        match self {
            Uplink::Output(bytes) => write_frame(Self::OUTPUT, bytes.as_slice()),
            Uplink::Resized { cols, rows } => {
                let payload = size_payload(*cols, *rows);
                write_frame(Self::RESIZED, payload.as_slice())
            },
        }
    }

    /// The message a header's tag and its body describe. An unknown tag is
    /// `None` rather than an error, so a peer from a newer build is skipped.
    pub fn decode(tag: u8, payload: &[u8]) -> (msg: Option<Self>)
        ensures
            match msg {
                Some(m) => UplinkView::decoded(tag, payload@) == Some(m@),
                None => UplinkView::decoded(tag, payload@) is None,
            },
    {
        if tag == Self::OUTPUT {
            Some(Uplink::Output(bytes_of(payload)))
        } else if tag == Self::RESIZED && payload.len() >= 4 {
            Some(
                Uplink::Resized {
                    cols: payload[0] as u16 * 256 + payload[1] as u16,
                    rows: payload[2] as u16 * 256 + payload[3] as u16,
                },
            )
        } else {
            None
        }
    }

    /// The payload length a header names, refused if it is past the cap.
    pub fn payload_length(header: [u8; 5]) -> (len: Option<usize>)
        ensures
            len == (if header_length(header@) <= 262144 {
                Some(header_length(header@) as usize)
            } else {
                None::<usize>
            }),
    {
        named_length(header, Self::MAX_PAYLOAD)
    }
}

/// Reading a downlink frame back gives the message that was framed: the
/// header names the payload's length, the tag and the payload decode to the
/// message, and the frame is exactly header and payload. Holds for every
/// payload whose length fits the four-byte length field.
pub proof fn lemma_downlink_roundtrip(m: DownlinkView)
    requires
        m.payload().len() <= u32::MAX,
    ensures
        m.encoded().len() == 5 + m.payload().len(),
        header_length(m.encoded().take(5)) == m.payload().len(),
        DownlinkView::decoded(m.encoded()[0], m.encoded().skip(5)) == Some(m),
{
    let e = m.encoded();
    let n = m.payload().len() as u32;
    lemma_be32_roundtrip(n);
    assert(e.take(5)[1] == be32(n)[0]);
    assert(e.take(5)[2] == be32(n)[1]);
    assert(e.take(5)[3] == be32(n)[2]);
    assert(e.take(5)[4] == be32(n)[3]);
    assert(e.skip(5) =~= m.payload());
    match m {
        DownlinkView::Input(b) => {},
        DownlinkView::Resize { cols, rows } => {
            lemma_be16_roundtrip(cols);
            lemma_be16_roundtrip(rows);
        },
    }
}

/// Reading an uplink frame back gives the message that was framed, for every
/// payload whose length fits the four-byte length field.
pub proof fn lemma_uplink_roundtrip(m: UplinkView)
    requires
        m.payload().len() <= u32::MAX,
    ensures
        m.encoded().len() == 5 + m.payload().len(),
        header_length(m.encoded().take(5)) == m.payload().len(),
        UplinkView::decoded(m.encoded()[0], m.encoded().skip(5)) == Some(m),
{
    let e = m.encoded();
    let n = m.payload().len() as u32;
    lemma_be32_roundtrip(n);
    assert(e.take(5)[1] == be32(n)[0]);
    assert(e.take(5)[2] == be32(n)[1]);
    assert(e.take(5)[3] == be32(n)[2]);
    assert(e.take(5)[4] == be32(n)[3]);
    assert(e.skip(5) =~= m.payload());
    match m {
        UplinkView::Output(b) => {},
        UplinkView::Resized { cols, rows } => {
            lemma_be16_roundtrip(cols);
            lemma_be16_roundtrip(rows);
        },
    }
}

} // verus!
