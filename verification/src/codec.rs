//! Message framing codec.
//!
//! A byte-oriented output stream may interleave free-form text with
//! structured messages delimited by two control bytes: a start marker and an
//! end marker around a serialized payload.  The codec splits such a stream
//! into the retained plain output and the side channel of completed frame
//! payloads, carrying its two-mode state (outside-frame / inside-frame plus
//! an accumulation buffer) across chunk boundaries, so a frame may span any
//! number of chunks.
//!
//! The scanner is specified byte by byte (`scan_byte`, folded by `scan`), and
//! `lemma_round_trip_chunked` states the round trip: one embedded frame
//! between marker-free text always yields exactly its payload on the side
//! channel and exactly the surrounding text as retained output, however the
//! bytes are split into chunks.

use vstd::prelude::*;

verus! {

/// Start-of-frame marker embedded in the output stream.
pub const MESSAGE_START: u8 = 2;

/// End-of-frame marker embedded in the output stream.
pub const MESSAGE_END: u8 = 3;

/// Scanner state carried across chunks: whether the scanner stands inside a
/// frame, and the payload bytes accumulated so far for the current frame.
#[verifier::ext_equal]
pub struct ScanState {
    pub in_frame: bool,
    pub buf: Seq<u8>,
}

/// What scanning a byte sequence produces: the state to carry into the next
/// chunk, the completed frame payloads, and the retained plain output.
#[verifier::ext_equal]
pub struct ScanResult {
    pub state: ScanState,
    pub msgs: Seq<Seq<u8>>,
    pub out: Seq<u8>,
}

pub open spec fn initial_state() -> ScanState {
    ScanState { in_frame: false, buf: Seq::empty() }
}

/// One scanner step.  Outside a frame, bytes are retained until a start
/// marker opens a frame; inside a frame, bytes accumulate until an end
/// marker completes the payload and emits it on the side channel.
pub open spec fn scan_byte(s: ScanState, b: u8) -> ScanResult {
    if s.in_frame {
        if b == MESSAGE_END {
            ScanResult {
                state: ScanState { in_frame: false, buf: Seq::empty() },
                msgs: seq![s.buf],
                out: Seq::empty(),
            }
        } else {
            ScanResult {
                state: ScanState { in_frame: true, buf: s.buf.push(b) },
                msgs: Seq::empty(),
                out: Seq::empty(),
            }
        }
    } else {
        if b == MESSAGE_START {
            ScanResult {
                state: ScanState { in_frame: true, buf: Seq::empty() },
                msgs: Seq::empty(),
                out: Seq::empty(),
            }
        } else {
            ScanResult { state: s, msgs: Seq::empty(), out: seq![b] }
        }
    }
}

/// Scanning a whole byte sequence: fold of `scan_byte`.
pub open spec fn scan(s: ScanState, input: Seq<u8>) -> ScanResult
    decreases input.len(),
{
    if input.len() == 0 {
        ScanResult { state: s, msgs: Seq::empty(), out: Seq::empty() }
    } else {
        let first = scan_byte(s, input[0]);
        let rest = scan(first.state, input.drop_first());
        ScanResult {
            state: rest.state,
            msgs: first.msgs + rest.msgs,
            out: first.out + rest.out,
        }
    }
}

/// Scanning a sequence of chunks, carrying the state from one chunk into the
/// next, as the processor does across polls.
pub open spec fn scan_chunks(s: ScanState, chunks: Seq<Seq<u8>>) -> ScanResult
    decreases chunks.len(),
{
    if chunks.len() == 0 {
        ScanResult { state: s, msgs: Seq::empty(), out: Seq::empty() }
    } else {
        let first = scan(s, chunks[0]);
        let rest = scan_chunks(first.state, chunks.drop_first());
        ScanResult {
            state: rest.state,
            msgs: first.msgs + rest.msgs,
            out: first.out + rest.out,
        }
    }
}

/// A frame on the wire: start marker, payload, end marker.
pub open spec fn frame_bytes(payload: Seq<u8>) -> Seq<u8> {
    seq![MESSAGE_START] + payload + seq![MESSAGE_END]
}

/// True of text that contains neither marker byte.
pub open spec fn marker_free(s: Seq<u8>) -> bool {
    forall|i: int| 0 <= i < s.len() ==> s[i] != MESSAGE_START && s[i] != MESSAGE_END
}

/// Scanning distributes over concatenation: scanning `a + b` is scanning `a`
/// and then scanning `b` from the state `a` left behind.
pub proof fn lemma_scan_concat(s: ScanState, a: Seq<u8>, b: Seq<u8>)
    ensures
        ({
            let ra = scan(s, a);
            let rb = scan(ra.state, b);
            let rab = scan(s, a + b);
            &&& rab.state == rb.state
            &&& rab.msgs =~~= ra.msgs + rb.msgs
            &&& rab.out =~= ra.out + rb.out
        }),
    decreases a.len(),
{
    if a.len() == 0 {
        assert(a + b =~= b);
        let ra = scan(s, a);
        assert(ra.state == s);
        assert(ra.msgs + scan(s, b).msgs =~~= scan(s, b).msgs);
        assert(ra.out + scan(s, b).out =~= scan(s, b).out);
    } else {
        let first = scan_byte(s, a[0]);
        lemma_scan_concat(first.state, a.drop_first(), b);
        assert((a + b).drop_first() =~= a.drop_first() + b);
        assert((a + b)[0] == a[0]);
        let ra = scan(s, a);
        let rb = scan(ra.state, b);
        let rtail = scan(first.state, a.drop_first());
        assert(scan(s, a + b).msgs =~~= first.msgs + (rtail.msgs + rb.msgs));
        assert(first.msgs + (rtail.msgs + rb.msgs) =~~= (first.msgs + rtail.msgs) + rb.msgs);
        assert(scan(s, a + b).out =~= first.out + (rtail.out + rb.out));
        assert(first.out + (rtail.out + rb.out) =~= (first.out + rtail.out) + rb.out);
    }
}

/// Scanning a single byte is one `scan_byte` step.
pub proof fn lemma_scan_one(s: ScanState, b: u8)
    ensures
        ({
            let r = scan(s, seq![b]);
            &&& r.state == scan_byte(s, b).state
            &&& r.msgs =~~= scan_byte(s, b).msgs
            &&& r.out =~= scan_byte(s, b).out
        }),
{
    let input: Seq<u8> = seq![b];
    assert(input.drop_first() =~= Seq::<u8>::empty());
    let first = scan_byte(s, b);
    assert(scan(first.state, input.drop_first()).msgs =~~= Seq::<Seq<u8>>::empty());
    assert(first.msgs + Seq::<Seq<u8>>::empty() =~~= first.msgs);
    assert(first.out + Seq::<u8>::empty() =~= first.out);
}

/// Outside a frame, marker-free text is retained unchanged: no frame opens,
/// nothing is emitted, the state is untouched.
pub proof fn lemma_scan_outside_marker_free(s: ScanState, input: Seq<u8>)
    requires
        !s.in_frame,
        marker_free(input),
    ensures
        ({
            let r = scan(s, input);
            &&& r.state == s
            &&& r.msgs =~~= Seq::<Seq<u8>>::empty()
            &&& r.out =~= input
        }),
    decreases input.len(),
{
    if input.len() == 0 {
    } else {
        let first = scan_byte(s, input[0]);
        assert(marker_free(input.drop_first()));
        lemma_scan_outside_marker_free(s, input.drop_first());
        assert(scan(s, input).out =~= seq![input[0]] + input.drop_first());
        assert(seq![input[0]] + input.drop_first() =~= input);
    }
}

/// Inside a frame, marker-free bytes only accumulate: nothing is emitted and
/// the buffer grows by exactly those bytes.
pub proof fn lemma_scan_inside_marker_free(s: ScanState, input: Seq<u8>)
    requires
        s.in_frame,
        marker_free(input),
    ensures
        ({
            let r = scan(s, input);
            &&& r.state.in_frame
            &&& r.state.buf =~= s.buf + input
            &&& r.msgs =~~= Seq::<Seq<u8>>::empty()
            &&& r.out =~= Seq::<u8>::empty()
        }),
    decreases input.len(),
{
    if input.len() == 0 {
        assert(s.buf + input =~= s.buf);
    } else {
        let first = scan_byte(s, input[0]);
        assert(marker_free(input.drop_first()));
        lemma_scan_inside_marker_free(first.state, input.drop_first());
        assert(first.state.buf + input.drop_first() =~= s.buf + input);
    }
}

/// Round trip over one byte sequence: a message framed between marker-free
/// text decodes to exactly that payload, and the retained output is exactly
/// the surrounding text, with the scanner back in its initial state.
pub proof fn lemma_round_trip(prefix: Seq<u8>, payload: Seq<u8>, suffix: Seq<u8>)
    requires
        marker_free(prefix),
        marker_free(payload),
        marker_free(suffix),
    ensures
        ({
            let r = scan(initial_state(), prefix + frame_bytes(payload) + suffix);
            &&& r.msgs =~~= seq![payload]
            &&& r.out =~= prefix + suffix
            &&& r.state == initial_state()
        }),
{
    let s0 = initial_state();
    let start: Seq<u8> = seq![MESSAGE_START];
    let end: Seq<u8> = seq![MESSAGE_END];

    lemma_scan_outside_marker_free(s0, prefix);
    lemma_scan_one(s0, MESSAGE_START);
    let s1 = ScanState { in_frame: true, buf: Seq::empty() };
    assert(scan_byte(s0, MESSAGE_START).state == s1);
    lemma_scan_inside_marker_free(s1, payload);
    let s2 = scan(s1, payload).state;
    assert(s2.buf =~= payload);
    lemma_scan_one(s2, MESSAGE_END);
    assert(scan_byte(s2, MESSAGE_END).state =~= s0);
    assert(scan_byte(s2, MESSAGE_END).msgs =~~= seq![payload]);
    lemma_scan_outside_marker_free(s0, suffix);

    // Stitch the five pieces together, left to right.
    lemma_scan_concat(s0, prefix, start);
    let a1 = prefix + start;
    assert(scan(s0, a1).state == s1);
    assert(scan(s0, a1).msgs =~~= Seq::<Seq<u8>>::empty());
    assert(scan(s0, a1).out =~= prefix);

    lemma_scan_concat(s0, a1, payload);
    let a2 = a1 + payload;
    assert(scan(s0, a2).state == s2);
    assert(scan(s0, a2).msgs =~~= Seq::<Seq<u8>>::empty());
    assert(scan(s0, a2).out =~= prefix);

    lemma_scan_concat(s0, a2, end);
    let a3 = a2 + end;
    assert(scan(s0, a3).state =~= s0);
    assert(scan(s0, a3).msgs =~~= seq![payload]);
    assert(scan(s0, a3).out =~= prefix);

    lemma_scan_concat(s0, a3, suffix);
    let a4 = a3 + suffix;
    assert(scan(s0, a4).msgs =~~= seq![payload]);
    assert(scan(s0, a4).out =~= prefix + suffix);

    assert(a4 =~= prefix + frame_bytes(payload) + suffix);
}

/// Scanning chunk by chunk, carrying the state across, gives the same result
/// as scanning the concatenation of the chunks in one piece.
pub proof fn lemma_scan_chunks_flatten(s: ScanState, chunks: Seq<Seq<u8>>)
    ensures
        ({
            let rc = scan_chunks(s, chunks);
            let rf = scan(s, chunks.flatten());
            &&& rc.state == rf.state
            &&& rc.msgs =~~= rf.msgs
            &&& rc.out =~= rf.out
        }),
    decreases chunks.len(),
{
    if chunks.len() == 0 {
        assert(chunks.flatten() =~= Seq::<u8>::empty());
    } else {
        let first = scan(s, chunks[0]);
        lemma_scan_chunks_flatten(first.state, chunks.drop_first());
        lemma_scan_concat(s, chunks[0], chunks.drop_first().flatten());
        assert(chunks.flatten() =~= chunks[0] + chunks.drop_first().flatten());
    }
}

/// Round trip under arbitrary chunking: however the framed byte sequence is
/// split into delivery chunks — including splits inside the frame — scanning
/// the chunks in order with the state carried across yields exactly one
/// decoded payload and retains exactly the surrounding text.
pub proof fn lemma_round_trip_chunked(
    chunks: Seq<Seq<u8>>,
    prefix: Seq<u8>,
    payload: Seq<u8>,
    suffix: Seq<u8>,
)
    requires
        chunks.flatten() =~= prefix + frame_bytes(payload) + suffix,
        marker_free(prefix),
        marker_free(payload),
        marker_free(suffix),
    ensures
        ({
            let r = scan_chunks(initial_state(), chunks);
            &&& r.msgs =~~= seq![payload]
            &&& r.out =~= prefix + suffix
            &&& r.state == initial_state()
        }),
{
    lemma_scan_chunks_flatten(initial_state(), chunks);
    lemma_round_trip(prefix, payload, suffix);
}

/// One chunk of command output: text or raw bytes.
pub enum CommandOutput {
    Str(String),
    Bin(Vec<u8>),
}

impl CommandOutput {
    /// The chunk as the byte sequence the scanner sees; text contributes its
    /// UTF-8 encoding.
    pub open spec fn bytes(&self) -> Seq<u8> {
        match self {
            CommandOutput::Str(s) => vstd::utf8::encode_utf8(s@),
            CommandOutput::Bin(v) => v@,
        }
    }

    pub fn to_bytes(&self) -> (r: Vec<u8>)
        ensures
            r@ == self.bytes(),
    {
        match self {
            CommandOutput::Str(s) => s.as_str().as_bytes_vec(),
            CommandOutput::Bin(v) => {
                let mut r: Vec<u8> = Vec::new();
                let mut i: usize = 0;
                while i < v.len()
                    invariant
                        i <= v@.len(),
                        r@ =~= v@.take(i as int),
                    decreases v@.len() - i,
                {
                    r.push(v[i]);
                    i = i + 1;
                    assert(r@ =~= v@.take(i as int));
                }
                assert(v@.take(v@.len() as int) =~= v@);
                r
            },
        }
    }
}

/// The stateful frame extractor: the exec counterpart of `scan`, fed one
/// output chunk at a time.
pub struct MessageProcessor {
    buffer: Vec<u8>,
    in_frame: bool,
}

impl MessageProcessor {
    /// The scanner state this processor currently carries.
    pub closed spec fn state(&self) -> ScanState {
        ScanState { in_frame: self.in_frame, buf: self.buffer@ }
    }

    pub fn new() -> (r: MessageProcessor)
        ensures
            r.state() =~= initial_state(),
    {
        MessageProcessor { buffer: Vec::new(), in_frame: false }
    }

    /// Consumes one output chunk.  Returns the payloads of the frames
    /// completed within it, and the retained plain output — `None` when the
    /// chunk yielded no retained bytes, so the caller emits no output event
    /// for this poll.
    pub fn consume_message(&mut self, output: &CommandOutput) -> (r: (
        Vec<Vec<u8>>,
        Option<CommandOutput>,
    ))
        ensures
            ({
                let sr = scan(old(self).state(), output.bytes());
                &&& final(self).state() == sr.state
                &&& r.0.deep_view() =~~= sr.msgs
                &&& match r.1 {
                    Some(rest) => rest.bytes() =~= sr.out && sr.out.len() > 0,
                    None => sr.out.len() == 0,
                }
            }),
    {
        let bytes = output.to_bytes();
        let ghost s0 = self.state();
        let mut msgs: Vec<Vec<u8>> = Vec::new();
        let mut out: Vec<u8> = Vec::new();
        let mut i: usize = 0;
        while i < bytes.len()
            invariant
                i <= bytes@.len(),
                ({
                    let sr = scan(s0, bytes@.take(i as int));
                    &&& sr.state == self.state()
                    &&& sr.msgs =~~= msgs.deep_view()
                    &&& sr.out =~= out@
                }),
            decreases bytes@.len() - i,
        {
            let b = bytes[i];
            let ghost pre = self.state();
            let ghost msgs_pre = msgs.deep_view();
            let ghost out_pre = out@;
            if self.in_frame {
                if b == MESSAGE_END {
                    let mut payload: Vec<u8> = Vec::new();
                    core::mem::swap(&mut payload, &mut self.buffer);
                    msgs.push(payload);
                    self.in_frame = false;
                } else {
                    self.buffer.push(b);
                }
            } else {
                if b == MESSAGE_START {
                    self.in_frame = true;
                    self.buffer.clear();
                } else {
                    out.push(b);
                }
            }
            proof {
                let step = scan_byte(pre, b);
                assert(self.state() =~= step.state);
                assert(msgs.deep_view() =~~= msgs_pre + step.msgs);
                assert(out@ =~= out_pre + step.out);
                lemma_scan_concat(s0, bytes@.take(i as int), seq![b]);
                lemma_scan_one(pre, b);
                assert(bytes@.take(i as int) + seq![b] =~= bytes@.take(i + 1));
            }
            i = i + 1;
        }
        proof {
            assert(bytes@.take(bytes@.len() as int) =~= bytes@);
        }
        let rest = if out.len() > 0 {
            Some(CommandOutput::Bin(out))
        } else {
            None
        };
        (msgs, rest)
    }
}

/// Wraps a serialized message payload into one frame for embedding in the
/// output stream.
pub fn encode_message(payload: &Vec<u8>) -> (r: Vec<u8>)
    ensures
        r@ =~= frame_bytes(payload@),
{
    let mut r: Vec<u8> = Vec::new();
    r.push(MESSAGE_START);
    let mut i: usize = 0;
    while i < payload.len()
        invariant
            i <= payload@.len(),
            r@ =~= seq![MESSAGE_START] + payload@.take(i as int),
        decreases payload@.len() - i,
    {
        r.push(payload[i]);
        i = i + 1;
        assert(r@ =~= seq![MESSAGE_START] + payload@.take(i as int));
    }
    assert(payload@.take(payload@.len() as int) =~= payload@);
    r.push(MESSAGE_END);
    assert(r@ =~= seq![MESSAGE_START] + payload@ + seq![MESSAGE_END]);
    r
}

} // verus!
