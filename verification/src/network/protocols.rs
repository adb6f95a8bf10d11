//! Network protocol detection from the first bytes of a stream.
use vstd::prelude::*;

verus! {

/// Supported network protocols
#[derive(Debug, Clone, Copy, PartialEq, Eq, Structural)]
pub enum Protocol {
    Http,
    Https,
    Http2,
    Http3,
    Quic,
    Ssh,
    Tls,
    WebSocket,
    Raw,
    Unknown,
}

/// True when `data` starts with the four bytes `a b c d`.
pub open spec fn starts_with4(data: Seq<u8>, a: u8, b: u8, c: u8, d: u8) -> bool {
    data.len() >= 4 && data[0] == a && data[1] == b && data[2] == c && data[3] == d
}

/// The HTTP request methods recognised at the start of a stream:
/// `GET `, `POST`, `PUT `, `HEAD` and `DELE`.
pub open spec fn is_http_start(data: Seq<u8>) -> bool {
    ||| starts_with4(data, 0x47, 0x45, 0x54, 0x20)
    ||| starts_with4(data, 0x50, 0x4f, 0x53, 0x54)
    ||| starts_with4(data, 0x50, 0x55, 0x54, 0x20)
    ||| starts_with4(data, 0x48, 0x45, 0x41, 0x44)
    ||| starts_with4(data, 0x44, 0x45, 0x4c, 0x45)
}

/// Classification of a buffered stream prefix. Fewer than four bytes are
/// never classified; otherwise the first matching rule wins: an HTTP method,
/// a TLS handshake record (`0x16 0x03`), an SSH banner (`SSH-`), or a QUIC
/// long header (high nibble `0xc`).
pub open spec fn classify(data: Seq<u8>) -> Option<Protocol> {
    if data.len() < 4 {
        None
    } else if is_http_start(data) {
        Some(Protocol::Http)
    } else if data[0] == 0x16 && data[1] == 0x03 {
        Some(Protocol::Tls)
    } else if starts_with4(data, 0x53, 0x53, 0x48, 0x2d) {
        Some(Protocol::Ssh)
    } else if data[0] & 0xf0 == 0xc0 {
        Some(Protocol::Quic)
    } else {
        None
    }
}

/// Every buffer that opens with one of the HTTP methods `GET `, `POST`,
/// `PUT `, `HEAD` or `DELE` (as bytes) is classified as HTTP, whatever
/// follows.
pub proof fn law_http_methods_detected(data: Seq<u8>)
    requires
        data.len() >= 4,
        data.take(4) == seq![0x47u8, 0x45u8, 0x54u8, 0x20u8] || data.take(4) == seq![
            0x50u8,
            0x4fu8,
            0x53u8,
            0x54u8,
        ] || data.take(4) == seq![0x50u8, 0x55u8, 0x54u8, 0x20u8] || data.take(4) == seq![
            0x48u8,
            0x45u8,
            0x41u8,
            0x44u8,
        ] || data.take(4) == seq![0x44u8, 0x45u8, 0x4cu8, 0x45u8],
    ensures
        classify(data) == Some(Protocol::Http),
{
    let t = data.take(4);
    assert(t[0] == data[0] && t[1] == data[1] && t[2] == data[2] && t[3] == data[3]);
}

/// The other rules, on buffers that do not open with an HTTP method: fewer
/// than four bytes are not classified; a buffer of four or more bytes that
/// opens with `0x16 0x03` is TLS, one that opens with `SSH-` is SSH, one
/// whose first byte has the high nibble `0xc` (and is neither) is QUIC, and
/// any other is unclassified.
pub proof fn law_other_protocols(data: Seq<u8>)
    ensures
        data.len() < 4 ==> classify(data) is None,
        data.len() >= 4 && data[0] == 0x16 && data[1] == 0x03 ==> classify(data) == Some(
            Protocol::Tls,
        ),
        data.len() >= 4 && data[0] == 0x53 && data[1] == 0x53 && data[2] == 0x48 && data[3] == 0x2d
            ==> classify(data) == Some(Protocol::Ssh),
        data.len() >= 4 && 0xc0 <= data[0] <= 0xcf ==> classify(data) == Some(Protocol::Quic),
        data.len() >= 4 && !(data[0] == 0x47 || data[0] == 0x50 || data[0] == 0x48 || data[0] == 0x44
            || data[0] == 0x16 || data[0] == 0x53 || 0xc0 <= data[0] <= 0xcf) ==> classify(data)
            is None,
{
    if data.len() >= 4 {
        let b = data[0];
        assert(0xc0 <= b <= 0xcf <==> b & 0xf0 == 0xc0) by (bit_vector);
    }
}

/// Classification looks at the first four bytes only: appending bytes to a
/// buffer of at least four bytes never changes it.
pub proof fn lemma_classify_prefix_stable(data: Seq<u8>, more: Seq<u8>)
    requires
        data.len() >= 4,
    ensures
        classify(data + more) == classify(data),
{
    let all = data + more;
    assert(all[0] == data[0] && all[1] == data[1] && all[2] == data[2] && all[3] == data[3]);
}

/// Protocol detector for identifying network protocols from byte streams
pub struct ProtocolDetector {
    buffer: Vec<u8>,
    detected: Option<Protocol>,
}

impl ProtocolDetector {
    /// All bytes fed so far.
    pub closed spec fn buffered(&self) -> Seq<u8> {
        self.buffer@
    }

    /// The detector's verdict always equals the classification of what was
    /// buffered so far.
    pub closed spec fn wf(&self) -> bool {
        self.detected == classify(self.buffer@)
    }

    pub fn new() -> (r: Self)
        ensures
            r.wf(),
            r.buffered() == Seq::<u8>::empty(),
            r.protocol_spec() == None::<Protocol>,
    {
        Self { buffer: Vec::with_capacity(256), detected: None }
    }

    pub closed spec fn protocol_spec(&self) -> Option<Protocol> {
        self.detected
    }

    /// Feed bytes to the detector
    pub fn feed(&mut self, data: &[u8])
        requires
            old(self).wf(),
        ensures
            final(self).wf(),
            final(self).buffered() == old(self).buffered() + data@,
            final(self).protocol_spec() == classify(old(self).buffered() + data@),
            old(self).protocol_spec() is Some ==> final(self).protocol_spec()
                == old(self).protocol_spec(),
    {
        let ghost before = self.buffer@;
        let mut i: usize = 0;
        while i < data.len()
            invariant
                0 <= i <= data.len(),
                self.buffer@ == before + data@.subrange(0, i as int),
                self.detected == classify(before),
            decreases data.len() - i,
        {
            self.buffer.push(data[i]);
            i = i + 1;
            proof {
                assert(before + data@.subrange(0, i as int) =~= (before + data@.subrange(
                    0,
                    (i - 1) as int,
                )).push(data@[i - 1]));
            }
        }
        assert(data@.subrange(0, data.len() as int) =~= data@);
        if self.detected.is_none() {
            self.detected = Self::detect(&self.buffer);
        } else {
            proof {
                lemma_classify_prefix_stable(before, data@);
            }
        }
    }

    /// Get the detected protocol if any
    pub fn protocol(&self) -> (r: Option<Protocol>)
        requires
            self.wf(),
        ensures
            r == self.protocol_spec(),
            r == classify(self.buffered()),
    {
        self.detected
    }

    fn starts4(buf: &Vec<u8>, a: u8, b: u8, c: u8, d: u8) -> (r: bool)
        requires
            buf.len() >= 4,
        ensures
            r == starts_with4(buf@, a, b, c, d),
    {
        buf[0] == a && buf[1] == b && buf[2] == c && buf[3] == d
    }

    /// Detect protocol from buffered data
    fn detect(buf: &Vec<u8>) -> (r: Option<Protocol>)
        ensures
            r == classify(buf@),
    {
        if buf.len() < 4 {
            return None;
        }
        if Self::starts4(buf, 0x47, 0x45, 0x54, 0x20) || Self::starts4(buf, 0x50, 0x4f, 0x53, 0x54)
            || Self::starts4(buf, 0x50, 0x55, 0x54, 0x20) || Self::starts4(
            buf,
            0x48,
            0x45,
            0x41,
            0x44,
        ) || Self::starts4(buf, 0x44, 0x45, 0x4c, 0x45) {
            Some(Protocol::Http)
        } else if buf[0] == 0x16 && buf[1] == 0x03 {
            Some(Protocol::Tls)
        } else if Self::starts4(buf, 0x53, 0x53, 0x48, 0x2d) {
            Some(Protocol::Ssh)
        } else if buf[0] & 0xf0 == 0xc0 {
            Some(Protocol::Quic)
        } else {
            None
        }
    }

    /// Reset the detector
    pub fn reset(&mut self)
        ensures
            final(self).wf(),
            final(self).buffered() == Seq::<u8>::empty(),
            final(self).protocol_spec() == None::<Protocol>,
    {
        self.buffer.clear();
        self.detected = None;
    }
}

/// Detect protocol from a byte slice
pub fn detect_protocol(data: &[u8]) -> (r: Protocol)
    ensures
        r == (match classify(data@) {
            Some(p) => p,
            None => Protocol::Unknown,
        }),
{
    let mut detector = ProtocolDetector::new();
    detector.feed(data);
    assert(Seq::<u8>::empty() + data@ =~= data@);
    match detector.protocol() {
        Some(p) => p,
        None => Protocol::Unknown,
    }
}

} // verus!
