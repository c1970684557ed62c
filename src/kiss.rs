use vstd::prelude::*;

verus! {

/// Frame delimiter.
pub const FEND: u8 = 0xC0;

/// Escape byte.
pub const FESC: u8 = 0xDB;

/// Escaped form of `FEND` (after `FESC`).
pub const TFEND: u8 = 0xDC;

/// Escaped form of `FESC` (after `FESC`).
pub const TFESC: u8 = 0xDD;

/// Highest KISS port number.
pub const MAX_PORT: u8 = 15;

pub open spec fn escape_byte(b: u8) -> Seq<u8> {
    if b == FEND {
        seq![FESC, TFEND]
    } else if b == FESC {
        seq![FESC, TFESC]
    } else {
        seq![b]
    }
}

/// `s` with each `FEND` and `FESC` replaced by its two-byte escape.
pub open spec fn escape(s: Seq<u8>) -> Seq<u8>
    decreases s.len(),
{
    if s.len() == 0 {
        Seq::empty()
    } else {
        escape(s.drop_last()) + escape_byte(s.last())
    }
}

/// The command byte of a data frame on `port`: port in the high nibble,
/// command 0 in the low one.
pub open spec fn data_command(port: u8) -> u8 {
    (port * 16) as u8
}

/// A KISS data frame: `FEND`, then the escaped command byte and payload,
/// then `FEND`.
pub open spec fn kiss_encode_spec(port: u8, payload: Seq<u8>) -> Seq<u8> {
    seq![FEND] + escape(seq![data_command(port)] + payload) + seq![FEND]
}

/// Where the stream decoder stands between two bytes.
pub enum DecoderState {
    /// Waiting for a frame delimiter; bytes here are discarded.
    Idle,
    /// Inside a frame, holding the unescaped bytes so far.
    InFrame(Seq<u8>),
    /// Inside a frame, just after an escape byte.
    Escaped(Seq<u8>),
}

/// What a finished frame hands on: the payload after the command byte, for
/// data frames (command nibble 0) only.
pub open spec fn emitted(frame: Seq<u8>) -> Seq<Seq<u8>> {
    if frame.len() > 0 && frame[0] % 16 == 0 {
        seq![frame.drop_first()]
    } else {
        Seq::empty()
    }
}

/// One byte of input. A bad escape discards the frame so far; the decoder
/// then waits for the next delimiter (a delimiter right after the escape
/// byte starts the next frame at once).
pub open spec fn step(s: DecoderState, b: u8) -> (DecoderState, Seq<Seq<u8>>) {
    match s {
        DecoderState::Idle => {
            if b == FEND {
                (DecoderState::InFrame(Seq::empty()), Seq::empty())
            } else {
                (DecoderState::Idle, Seq::empty())
            }
        },
        DecoderState::InFrame(acc) => {
            if b == FEND {
                (DecoderState::InFrame(Seq::empty()), emitted(acc))
            } else if b == FESC {
                (DecoderState::Escaped(acc), Seq::empty())
            } else {
                (DecoderState::InFrame(acc.push(b)), Seq::empty())
            }
        },
        DecoderState::Escaped(acc) => {
            if b == TFEND {
                (DecoderState::InFrame(acc.push(FEND)), Seq::empty())
            } else if b == TFESC {
                (DecoderState::InFrame(acc.push(FESC)), Seq::empty())
            } else if b == FEND {
                (DecoderState::InFrame(Seq::empty()), Seq::empty())
            } else {
                (DecoderState::Idle, Seq::empty())
            }
        },
    }
}

/// The state after `bs` and the payloads recovered from it, in order.
pub open spec fn run(s: DecoderState, bs: Seq<u8>) -> (DecoderState, Seq<Seq<u8>>)
    decreases bs.len(),
{
    if bs.len() == 0 {
        (s, Seq::empty())
    } else {
        let prev = run(s, bs.drop_last());
        let next = step(prev.0, bs.last());
        (next.0, prev.1 + next.1)
    }
}

/// The chunks one after the other.
pub open spec fn concat_chunks(cs: Seq<Seq<u8>>) -> Seq<u8>
    decreases cs.len(),
{
    if cs.len() == 0 {
        Seq::empty()
    } else {
        concat_chunks(cs.drop_last()) + cs.last()
    }
}

/// Feeding the chunks one call at a time: the final state and all payloads.
pub open spec fn run_chunks(s: DecoderState, cs: Seq<Seq<u8>>) -> (DecoderState, Seq<Seq<u8>>)
    decreases cs.len(),
{
    if cs.len() == 0 {
        (s, Seq::empty())
    } else {
        let prev = run_chunks(s, cs.drop_last());
        let next = run(prev.0, cs.last());
        (next.0, prev.1 + next.1)
    }
}

// ---------------------------------------------------------------------------
// Laws
// ---------------------------------------------------------------------------

/// Decoding `a + b` is decoding `a`, then `b` from where `a` left off.
pub proof fn lemma_run_concat(s: DecoderState, a: Seq<u8>, b: Seq<u8>)
    ensures
        run(s, a + b) == (run(run(s, a).0, b).0, run(s, a).1 + run(run(s, a).0, b).1),
    decreases b.len(),
{
    if b.len() == 0 {
        assert(a + b =~= a);
        assert(run(s, a).1 + Seq::<Seq<u8>>::empty() =~= run(s, a).1);
    } else {
        assert((a + b).drop_last() =~= a + b.drop_last());
        assert((a + b).last() == b.last());
        lemma_run_concat(s, a, b.drop_last());
        let mid = run(s, a);
        let p = run(mid.0, b.drop_last());
        let st = step(p.0, b.last());
        assert(mid.1 + p.1 + st.1 =~= mid.1 + (p.1 + st.1));
    }
}

/// Where the decoder stands, chunk boundaries do not matter: feeding the
/// chunks one by one is feeding their concatenation at once.
pub proof fn lemma_chunks_irrelevant(s: DecoderState, cs: Seq<Seq<u8>>)
    ensures
        run_chunks(s, cs) == run(s, concat_chunks(cs)),
    decreases cs.len(),
{
    if cs.len() > 0 {
        lemma_chunks_irrelevant(s, cs.drop_last());
        lemma_run_concat(s, concat_chunks(cs.drop_last()), cs.last());
    }
}

proof fn lemma_run_escape_byte(acc: Seq<u8>, b: u8)
    ensures
        run(DecoderState::InFrame(acc), escape_byte(b)) == (
        DecoderState::InFrame(acc.push(b)),
        Seq::<Seq<u8>>::empty(),
        ),
{
    let s = DecoderState::InFrame(acc);
    if b == FEND || b == FESC {
        let t = if b == FEND {
            TFEND
        } else {
            TFESC
        };
        assert(escape_byte(b) =~= seq![FESC] + seq![t]);
        lemma_run_concat(s, seq![FESC], seq![t]);
        lemma_run_single(s, FESC);
        lemma_run_single(DecoderState::Escaped(acc), t);
        assert(Seq::<Seq<u8>>::empty() + Seq::<Seq<u8>>::empty() =~= Seq::<Seq<u8>>::empty());
    } else {
        lemma_run_single(s, b);
    }
}

/// Inside a frame, the escaped form of `x` adds exactly `x` to the frame.
pub proof fn lemma_run_escape(acc: Seq<u8>, x: Seq<u8>)
    ensures
        run(DecoderState::InFrame(acc), escape(x)) == (
        DecoderState::InFrame(acc + x),
        Seq::<Seq<u8>>::empty(),
        ),
    decreases x.len(),
{
    if x.len() == 0 {
        assert(acc + x =~= acc);
    } else {
        let init = x.drop_last();
        lemma_run_escape(acc, init);
        lemma_run_concat(DecoderState::InFrame(acc), escape(init), escape_byte(x.last()));
        lemma_run_escape_byte(acc + init, x.last());
        assert((acc + init).push(x.last()) =~= acc + x);
    }
}

proof fn lemma_run_single(s: DecoderState, b: u8)
    ensures
        run(s, seq![b]) == step(s, b),
{
    assert(seq![b].drop_last() =~= Seq::<u8>::empty());
    assert(seq![b].last() == b);
    assert(run(s, Seq::<u8>::empty()) == (s, Seq::<Seq<u8>>::empty()));
    let st = step(s, b);
    assert(Seq::<Seq<u8>>::empty() + st.1 =~= st.1);
}

/// A data frame on any port, decoded from a clean start (waiting for a
/// delimiter, or just past one), yields exactly its payload and leaves the
/// decoder just past a delimiter.
pub proof fn lemma_kiss_frame(s: DecoderState, port: u8, payload: Seq<u8>)
    requires
        port <= MAX_PORT,
        s == DecoderState::Idle || s == DecoderState::InFrame(Seq::<u8>::empty()),
    ensures
        run(s, kiss_encode_spec(port, payload)) == (
        DecoderState::InFrame(Seq::<u8>::empty()),
        seq![payload],
        ),
{
    let body = seq![data_command(port)] + payload;
    let empty = Seq::<u8>::empty();
    lemma_run_single(s, FEND);
    lemma_run_escape(empty, body);
    lemma_run_concat(s, seq![FEND], escape(body));
    lemma_run_concat(s, seq![FEND] + escape(body), seq![FEND]);
    lemma_run_single(DecoderState::InFrame(empty + body), FEND);
    assert(empty + body =~= body);
    assert(data_command(port) % 16 == 0);
    assert(body.drop_first() =~= payload);
    assert(Seq::<Seq<u8>>::empty() + Seq::<Seq<u8>>::empty() + seq![payload] =~= seq![payload]);
}

/// Two data frames back to back, delivered in any chunks, decode to both
/// payloads in order.
pub proof fn lemma_two_frames_any_chunks(
    first_port: u8,
    first: Seq<u8>,
    second_port: u8,
    second: Seq<u8>,
    cs: Seq<Seq<u8>>,
)
    requires
        first_port <= MAX_PORT,
        second_port <= MAX_PORT,
        concat_chunks(cs) == kiss_encode_spec(first_port, first) + kiss_encode_spec(second_port, second),
    ensures
        run_chunks(DecoderState::Idle, cs).1 == seq![first, second],
{
    lemma_chunks_irrelevant(DecoderState::Idle, cs);
    lemma_run_concat(
        DecoderState::Idle,
        kiss_encode_spec(first_port, first),
        kiss_encode_spec(second_port, second),
    );
    lemma_kiss_frame(DecoderState::Idle, first_port, first);
    lemma_kiss_frame(DecoderState::InFrame(Seq::empty()), second_port, second);
    assert(seq![first] + seq![second] =~= seq![first, second]);
}

// ---------------------------------------------------------------------------
// Executable code
// ---------------------------------------------------------------------------

/// Wraps `payload` in a KISS data frame for `port`.
pub fn kiss_encode(port: u8, payload: &[u8]) -> (r: Vec<u8>)
    requires
        port <= MAX_PORT,
    ensures
        r@ == kiss_encode_spec(port, payload@),
{
    let mut out: Vec<u8> = Vec::new();
    out.push(FEND);
    let ghost body = seq![data_command(port)] + payload@;
    let cmd = port * 16;
    push_escaped(&mut out, cmd);
    assert(seq![cmd] =~= body.subrange(0, 1));
    assert(escape(body.subrange(0, 1)) == escape_byte(cmd)) by {
        assert(body.subrange(0, 1).drop_last() =~= Seq::<u8>::empty());
        assert(escape(Seq::<u8>::empty()) == Seq::<u8>::empty());
        assert(Seq::<u8>::empty() + escape_byte(cmd) =~= escape_byte(cmd));
    }
    let mut i: usize = 0;
    while i < payload.len()
        invariant
            body == seq![data_command(port)] + payload@,
            0 <= i <= payload@.len(),
            out@ == seq![FEND] + escape(body.subrange(0, i + 1)),
        decreases payload@.len() - i,
    {
        let ghost before = out@;
        push_escaped(&mut out, payload[i]);
        proof {
            assert(body.subrange(0, i + 2).drop_last() =~= body.subrange(0, i + 1));
            assert(body.subrange(0, i + 2).last() == payload@[i as int]);
            assert(out@ =~= seq![FEND] + escape(body.subrange(0, i + 2)));
        }
        i = i + 1;
    }
    out.push(FEND);
    assert(body.subrange(0, i + 1) =~= body);
    assert(out@ =~= kiss_encode_spec(port, payload@));
    out
}

fn push_escaped(out: &mut Vec<u8>, b: u8)
    ensures
        final(out)@ == old(out)@ + escape_byte(b),
{
    if b == FEND {
        out.push(FESC);
        out.push(TFEND);
    } else if b == FESC {
        out.push(FESC);
        out.push(TFESC);
    } else {
        out.push(b);
    }
    assert(final(out)@ =~= old(out)@ + escape_byte(b));
}

#[derive(Clone, Copy, Debug, PartialEq, Eq)]
enum Mode {
    Idle,
    InFrame,
    Escaped,
}

/// Streaming KISS decoder: takes the transport's bytes in chunks of any size
/// and hands back each complete data frame's payload, in order. Bytes before
/// the first delimiter, and a frame with a bad escape, are discarded.
#[derive(Debug)]
pub struct KissDecoder {
    mode: Mode,
    frame: Vec<u8>,
}

impl View for KissDecoder {
    type V = DecoderState;

    closed spec fn view(&self) -> DecoderState {
        match self.mode {
            Mode::Idle => DecoderState::Idle,
            Mode::InFrame => DecoderState::InFrame(self.frame@),
            Mode::Escaped => DecoderState::Escaped(self.frame@),
        }
    }
}

impl KissDecoder {
    /// A decoder waiting for its first delimiter.
    pub fn new() -> (r: KissDecoder)
        ensures
            r@ == DecoderState::Idle,
    {
        KissDecoder { mode: Mode::Idle, frame: Vec::new() }
    }

    fn push_byte(&mut self, b: u8) -> (r: Option<Vec<u8>>)
        ensures
            final(self)@ == step(old(self)@, b).0,
            step(old(self)@, b).1 == (match r {
                Some(p) => seq![p@],
                None => Seq::<Seq<u8>>::empty(),
            }),
    {
        match self.mode {
            Mode::Idle => {
                if b == FEND {
                    self.mode = Mode::InFrame;
                    self.frame = Vec::new();
                }
                None
            },
            Mode::InFrame => {
                if b == FEND {
                    let ghost done = self.frame@;
                    let mut result: Option<Vec<u8>> = None;
                    if self.frame.len() > 0 && self.frame[0] % 16 == 0 {
                        let mut payload: Vec<u8> = Vec::new();
                        let mut i: usize = 1;
                        while i < self.frame.len()
                            invariant
                                done == self.frame@,
                                1 <= i <= done.len(),
                                payload@ =~= done.subrange(1, i as int),
                            decreases done.len() - i,
                        {
                            payload.push(self.frame[i]);
                            i = i + 1;
                        }
                        assert(payload@ =~= done.drop_first());
                        result = Some(payload);
                    }
                    self.frame = Vec::new();
                    result
                } else if b == FESC {
                    self.mode = Mode::Escaped;
                    None
                } else {
                    self.frame.push(b);
                    None
                }
            },
            Mode::Escaped => {
                if b == TFEND {
                    self.mode = Mode::InFrame;
                    self.frame.push(FEND);
                } else if b == TFESC {
                    self.mode = Mode::InFrame;
                    self.frame.push(FESC);
                } else if b == FEND {
                    self.mode = Mode::InFrame;
                    self.frame = Vec::new();
                } else {
                    self.mode = Mode::Idle;
                    self.frame = Vec::new();
                }
                None
            },
        }
    }

    /// Takes the next chunk of the byte stream and returns the payloads of
    /// the data frames that it completes, in order. A frame split across
    /// chunks is kept until its end arrives.
    pub fn feed(&mut self, chunk: &[u8]) -> (r: Vec<Vec<u8>>)
        ensures
            final(self)@ == run(old(self)@, chunk@).0,
            r@.map_values(|p: Vec<u8>| p@) == run(old(self)@, chunk@).1,
    {
        let mut out: Vec<Vec<u8>> = Vec::new();
        let mut i: usize = 0;
        while i < chunk.len()
            invariant
                0 <= i <= chunk@.len(),
                self@ == run(old(self)@, chunk@.subrange(0, i as int)).0,
                out@.map_values(|p: Vec<u8>| p@) == run(old(self)@, chunk@.subrange(0, i as int)).1,
            decreases chunk@.len() - i,
        {
            let ghost before = out@.map_values(|p: Vec<u8>| p@);
            let ghost s0 = self@;
            let got = self.push_byte(chunk[i]);
            match got {
                Some(p) => {
                    out.push(p);
                },
                None => {},
            }
            proof {
                let pre = chunk@.subrange(0, i + 1);
                assert(pre.drop_last() =~= chunk@.subrange(0, i as int));
                assert(pre.last() == chunk@[i as int]);
                assert(out@.map_values(|p: Vec<u8>| p@) =~= before + step(s0, chunk@[i as int]).1);
            }
            i = i + 1;
        }
        assert(chunk@.subrange(0, i as int) =~= chunk@);
        out
    }
}

} // verus!
