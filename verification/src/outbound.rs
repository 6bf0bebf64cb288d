//! What goes out over a connection.
use vstd::prelude::*;
use wow_srp::vanilla_header::EncrypterHalf;

verus! {

/// The length that the header of a packet gives: that of its body and the
/// opcode. Of a longer body the length is cut off.
pub open spec fn header_size(len: usize) -> u16 {
    let n = len as u16;
    if n > 0xfffd {
        0xffff
    } else {
        (n + 2) as u16
    }
}

/// A packet: the length with its high byte first, the opcode with its low byte
/// first, and the body.
pub open spec fn framed(opcode: u16, body: Seq<u8>) -> Seq<u8> {
    let size = header_size(body.len() as usize);
    seq![(size / 256) as u8, (size % 256) as u8, (opcode % 256) as u8, (opcode / 256) as u8] + body
}

/// Put a packet together.
pub fn frame(opcode: u16, body: &Vec<u8>) -> (r: Vec<u8>)
    ensures
        r@ == framed(opcode, body@),
{
    let size: u16 = (body.len() as u16).saturating_add(2);
    let mut r: Vec<u8> = Vec::new();
    r.push((size / 256) as u8);
    r.push((size % 256) as u8);
    r.push((opcode % 256) as u8);
    r.push((opcode / 256) as u8);
    let mut i: usize = 0;
    let ghost head = r@;
    assert(r@ =~= head + body@.take(0));
    while i < body.len()
        invariant
            i <= body@.len(),
            r@ == head + body@.take(i as int),
        decreases body.len() - i,
    {
        r.push(body[i]);
        i += 1;
        assert(r@ =~= head + body@.take(i as int));
    }
    assert(body@.take(i as int) =~= body@);
    assert(r@ =~= framed(opcode, body@));
    r
}

/// The length and opcode in the header of a packet.
pub open spec fn header_of(buf: Seq<u8>) -> (u16, u16) {
    ((buf[0] as int * 256 + buf[1]) as u16, (buf[3] as int * 256 + buf[2]) as u16)
}

/// The header of a packet says what it was made with.
pub proof fn a_header_tells_opcode_and_length(opcode: u16, body: Seq<u8>)
    requires
        body.len() <= 0xfffd,
    ensures
        header_of(framed(opcode, body)) == ((body.len() + 2) as u16, opcode),
        framed(opcode, body).skip(4) == body,
{
    assert(framed(opcode, body).skip(4) =~= body);
}

/// How much may wait to be sent over a connection, in bytes.
#[derive(Debug, Clone, Copy, PartialEq, Eq, Structural)]
pub struct ByteBudget {
    pub available: usize,
    pub dropped: u64,
}

/// What a packet of that length is charged with.
pub open spec fn charge(len: usize) -> usize {
    if len > u32::MAX {
        u32::MAX as usize
    } else {
        len
    }
}

fn charge_of(len: usize) -> (r: usize)
    ensures
        r == charge(len),
{
    if len > 0xffff_ffff {
        0xffff_ffff
    } else {
        len
    }
}

impl ByteBudget {
    pub fn new(available: usize) -> (r: Self)
        ensures
            r == (ByteBudget { available, dropped: 0 }),
    {
        ByteBudget { available, dropped: 0 }
    }

    /// Whether a packet of that length may wait with the others; if not, it is
    /// dropped, and counted.
    pub fn try_send(&mut self, len: usize) -> (r: bool)
        ensures
            r == (old(self).available >= charge(len)),
            *final(self) == (if r {
                ByteBudget { available: (old(self).available - charge(len)) as usize, ..*old(self) }
            } else {
                ByteBudget {
                    dropped: if old(self).dropped == u64::MAX {
                        0
                    } else {
                        (old(self).dropped + 1) as u64
                    },
                    ..*old(self)
                }
            }),
    {
        let n: usize = charge_of(len);
        if self.available >= n {
            self.available = self.available - n;
            true
        } else {
            self.dropped = self.dropped.wrapping_add(1);
            false
        }
    }

    /// That many bytes no longer wait.
    pub fn release(&mut self, drained: usize)
        requires
            old(self).available + charge(drained) <= usize::MAX,
        ensures
            *final(self) == (ByteBudget { available: (old(self).available + charge(drained)) as usize, ..*old(self) }),
    {
        self.available = self.available + charge_of(drained);
    }
}

/// The budget after packets of those lengths began to wait.
pub open spec fn charged(b: ByteBudget, lens: Seq<usize>) -> ByteBudget
    decreases lens.len(),
{
    if lens.len() == 0 {
        b
    } else {
        let before = charged(b, lens.drop_last());
        ByteBudget { available: (before.available - charge(lens.last())) as usize, ..before }
    }
}

pub open spec fn sum(lens: Seq<usize>) -> int
    decreases lens.len(),
{
    if lens.len() == 0 {
        0
    } else {
        sum(lens.drop_last()) + lens.last()
    }
}

proof fn lemma_charged(b: ByteBudget, lens: Seq<usize>)
    requires
        0 <= sum(lens) <= u32::MAX,
        sum(lens) <= b.available,
    ensures
        charged(b, lens) == (ByteBudget { available: (b.available - sum(lens)) as usize, ..b }),
        sum(lens) >= 0,
    decreases lens.len(),
{
    if lens.len() > 0 {
        lemma_sum(lens.drop_last());
        lemma_charged(b, lens.drop_last());
    }
}

proof fn lemma_sum(lens: Seq<usize>)
    ensures
        sum(lens) >= 0,
    decreases lens.len(),
{
    if lens.len() > 0 {
        lemma_sum(lens.drop_last());
    }
}

/// Packets that waited and were sent together give back what they were charged
/// with, each by itself.
pub proof fn what_is_charged_is_given_back(b: ByteBudget, lens: Seq<usize>)
    requires
        sum(lens) <= u32::MAX,
        sum(lens) <= b.available,
    ensures
        charged(b, lens).available + charge(sum(lens) as usize) == b.available,
        charged(b, lens).dropped == b.dropped,
{
    lemma_sum(lens);
    lemma_charged(b, lens);
}

/// How many packets are written at once.
pub const BATCH_LIMIT: usize = 64;

/// Whether another packet may be written together with `staged` others.
pub fn wants_more(staged: usize) -> (r: bool)
    ensures
        r == (staged < BATCH_LIMIT),
{
    staged < BATCH_LIMIT
}

/// `wow_srp::vanilla_header::EncrypterHalf`, a stream cipher for headers.
#[verifier::external_type_specification]
#[verifier::external_body]
pub struct ExEncrypterHalf(EncrypterHalf);

/// A header in cipher, and the cipher afterwards.
pub uninterp spec fn sealed(enc: EncrypterHalf, size: u16, opcode: u16) -> ([u8; 4], EncrypterHalf);

/// `EncrypterHalf::encrypt_server_header` of `wow_srp`: the header in cipher. The
/// cipher goes on from there.
#[verifier::external_body]
fn encrypt_header(enc: &mut EncrypterHalf, size: u16, opcode: u16) -> (r: [u8; 4])
    ensures
        (r, *final(enc)) == sealed(*old(enc), size, opcode),
{
    enc.encrypt_server_header(size, opcode)
}

/// Headers in cipher, one after the other, and the cipher afterwards.
pub open spec fn all_sealed(enc: EncrypterHalf, plain: Seq<(u16, u16)>) -> (Seq<[u8; 4]>, EncrypterHalf)
    decreases plain.len(),
{
    if plain.len() == 0 {
        (Seq::empty(), enc)
    } else {
        let (before, mid) = all_sealed(enc, plain.drop_last());
        let (last, after) = sealed(mid, plain.last().0, plain.last().1);
        (before.push(last), after)
    }
}

/// The contents of packets.
pub open spec fn contents(staging: Seq<Vec<u8>>) -> Seq<Seq<u8>> {
    staging.map_values(|b: Vec<u8>| b@)
}

/// The packets that have a header.
pub open spec fn whole(staging: Seq<Seq<u8>>) -> Seq<Seq<u8>> {
    staging.filter(|b: Seq<u8>| b.len() >= 4)
}

/// The packets with `headers` in the place of theirs, one behind the other.
pub open spec fn spliced(headers: Seq<[u8; 4]>, packets: Seq<Seq<u8>>) -> Seq<u8>
    decreases packets.len(),
{
    if packets.len() == 0 {
        Seq::empty()
    } else {
        spliced(headers, packets.drop_last()) + headers[packets.len() - 1]@ + packets.last().skip(4)
    }
}

/// How many bytes packets hold.
pub open spec fn bytes_in(staging: Seq<Seq<u8>>) -> int
    decreases staging.len(),
{
    if staging.len() == 0 {
        0
    } else {
        bytes_in(staging.drop_last()) + staging.last().len()
    }
}

/// What is written at once.
#[derive(Debug)]
pub struct Batch {
    pub bytes: Vec<u8>,
    pub written: u64,
    /// How much no longer waits, packets without a header included.
    pub drained: usize,
}

fn append_from(out: &mut Vec<u8>, buf: &Vec<u8>, from: usize)
    requires
        from <= buf@.len(),
    ensures
        final(out)@ == old(out)@ + buf@.skip(from as int),
{
    let mut i: usize = from;
    assert(out@ =~= old(out)@ + buf@.subrange(from as int, from as int));
    while i < buf.len()
        invariant
            from <= i <= buf@.len(),
            out@ == old(out)@ + buf@.subrange(from as int, i as int),
        decreases buf.len() - i,
    {
        out.push(buf[i]);
        i += 1;
        assert(out@ =~= old(out)@ + buf@.subrange(from as int, i as int));
    }
    assert(buf@.subrange(from as int, i as int) =~= buf@.skip(from as int));
}

proof fn lemma_bytes(s: Seq<Seq<u8>>, i: int)
    requires
        0 <= i <= s.len(),
    ensures
        0 <= bytes_in(s.take(i)) <= bytes_in(s),
    decreases s.len(),
{
    if i == s.len() {
        assert(s.take(i) =~= s);
        if i > 0 {
            lemma_bytes(s.drop_last(), i - 1);
            assert(s.drop_last().take(i - 1) =~= s.drop_last());
        }
    } else {
        lemma_bytes(s.drop_last(), i);
        assert(s.drop_last().take(i) =~= s.take(i));
    }
}

proof fn lemma_whole(s: Seq<Seq<u8>>, i: int)
    requires
        0 <= i <= s.len(),
    ensures
        whole(s.take(i)).len() <= whole(s).len(),
    decreases s.len(),
{
    reveal(Seq::filter);
    if i == s.len() {
        assert(s.take(i) =~= s);
    } else {
        lemma_whole(s.drop_last(), i);
        assert(s.drop_last().take(i) =~= s.take(i));
    }
}

/// The lengths and opcodes of the packets that have a header, in their order.
pub open spec fn headers(packets: Seq<Seq<u8>>) -> Seq<(u16, u16)> {
    packets.map_values(|p: Seq<u8>| header_of(p))
}

/// The headers of packets that are to be put into cipher. A packet that is too
/// short for a header has none.
pub fn headers_of(staging: &Vec<Vec<u8>>) -> (r: Vec<(u16, u16)>)
    ensures
        r@ == headers(whole(contents(staging@))),
{
    let ghost all = contents(staging@);
    let mut r: Vec<(u16, u16)> = Vec::new();
    let mut i: usize = 0;
    proof {
        reveal(Seq::filter);
        assert(all.take(0) =~= Seq::<Seq<u8>>::empty());
        assert(r@ =~= headers(whole(all.take(0))));
    }
    while i < staging.len()
        invariant
            i <= staging@.len(),
            all == contents(staging@),
            r@ == headers(whole(all.take(i as int))),
        decreases staging.len() - i,
    {
        let buf = &staging[i];
        proof {
            reveal(Seq::filter);
            assert(all.take(i + 1).drop_last() =~= all.take(i as int));
            assert(all.take(i + 1).last() == buf@);
        }
        if buf.len() >= 4 {
            let size: u16 = (buf[0] as u16) * 256 + buf[1] as u16;
            let opcode: u16 = (buf[3] as u16) * 256 + buf[2] as u16;
            r.push((size, opcode));
            assert(r@ =~= headers(whole(all.take(i + 1))));
        }
        i += 1;
    }
    assert(all.take(i as int) =~= all);
    r
}

/// Put headers into cipher, one after the other.
pub fn encrypt_headers(enc: &mut EncrypterHalf, plain: &Vec<(u16, u16)>) -> (r: Vec<[u8; 4]>)
    ensures
        (r@, *final(enc)) == all_sealed(*old(enc), plain@),
        r@.len() == plain@.len(),
{
    let mut r: Vec<[u8; 4]> = Vec::new();
    let mut i: usize = 0;
    assert(plain@.take(0) =~= Seq::<(u16, u16)>::empty());
    while i < plain.len()
        invariant
            i <= plain@.len(),
            r@.len() == i,
            (r@, *enc) == all_sealed(*old(enc), plain@.take(i as int)),
        decreases plain.len() - i,
    {
        proof {
            assert(plain@.take(i + 1).drop_last() =~= plain@.take(i as int));
            assert(plain@.take(i + 1).last() == plain@[i as int]);
        }
        r.push(encrypt_header(enc, plain[i].0, plain[i].1));
        i += 1;
    }
    assert(plain@.take(i as int) =~= plain@);
    r
}

/// Put packets one behind the other, with headers in cipher in the place of
/// theirs. A packet that is too short for a header is left out.
pub fn splice(sealed: &Vec<[u8; 4]>, staging: &Vec<Vec<u8>>) -> (r: Batch)
    requires
        sealed@.len() == whole(contents(staging@)).len(),
        bytes_in(contents(staging@)) <= usize::MAX,
    ensures
        r.bytes@ == spliced(sealed@, whole(contents(staging@))),
        r.written == sealed@.len(),
        r.drained == bytes_in(contents(staging@)),
{
    let ghost all = contents(staging@);
    let mut bytes: Vec<u8> = Vec::new();
    let mut written: usize = 0;
    let mut drained: usize = 0;
    let mut i: usize = 0;
    proof {
        reveal(Seq::filter);
        assert(all.take(0) =~= Seq::<Seq<u8>>::empty());
        assert(bytes@ =~= spliced(sealed@, whole(all.take(0))));
    }
    while i < staging.len()
        invariant
            i <= staging@.len(),
            all == contents(staging@),
            sealed@.len() == whole(all).len(),
            bytes_in(all) <= usize::MAX,
            written == whole(all.take(i as int)).len(),
            bytes@ == spliced(sealed@, whole(all.take(i as int))),
            drained == bytes_in(all.take(i as int)),
        decreases staging.len() - i,
    {
        let buf = &staging[i];
        let ghost before = whole(all.take(i as int));
        proof {
            reveal(Seq::filter);
            assert(all.take(i + 1).drop_last() =~= all.take(i as int));
            assert(all.take(i + 1).last() == buf@);
            lemma_bytes(all, i + 1);
            lemma_whole(all, i + 1);
        }
        drained = drained + buf.len();
        if buf.len() >= 4 {
            assert(written < sealed.len());
            let h: [u8; 4] = sealed[written];
            bytes.push(h[0]);
            bytes.push(h[1]);
            bytes.push(h[2]);
            bytes.push(h[3]);
            append_from(&mut bytes, buf, 4);
            written = written + 1;
            proof {
                let now = whole(all.take(i + 1));
                assert(now == before.push(buf@));
                assert(now.drop_last() =~= before);
                assert(bytes@ =~= spliced(sealed@, now));
            }
        }
        i += 1;
    }
    assert(all.take(i as int) =~= all);
    Batch { bytes, written: written as u64, drained }
}

/// Put packets into cipher and one behind the other. Only headers are in cipher;
/// they are those that `headers_of` gives, in that order. What they are in cipher
/// depends on everything that was put into cipher before.
pub fn encrypt_batch(enc: &mut EncrypterHalf, staging: &Vec<Vec<u8>>) -> (r: Batch)
    requires
        bytes_in(contents(staging@)) <= usize::MAX,
    ensures
        r.bytes@ == spliced(
            all_sealed(*old(enc), headers(whole(contents(staging@)))).0,
            whole(contents(staging@)),
        ),
        *final(enc) == all_sealed(*old(enc), headers(whole(contents(staging@)))).1,
        r.written == whole(contents(staging@)).len(),
        r.drained == bytes_in(contents(staging@)),
{
    let plain = headers_of(staging);
    let sealed = encrypt_headers(enc, &plain);
    splice(&sealed, staging)
}

/// A packet is as long with its header in cipher as without.
pub proof fn packets_keep_their_length(sealed: Seq<[u8; 4]>, packets: Seq<Seq<u8>>)
    requires
        forall|i: int| 0 <= i < packets.len() ==> (#[trigger] packets[i]).len() >= 4,
    ensures
        spliced(sealed, packets).len() == bytes_in(packets),
    decreases packets.len(),
{
    if packets.len() > 0 {
        assert(packets.last() == packets[packets.len() - 1]);
        packets_keep_their_length(sealed, packets.drop_last());
    }
}

/// How many packets went out.
#[derive(Debug, Clone, Copy, PartialEq, Eq, Structural)]
pub struct PacketCounter {
    pub sent: u64,
}

impl PacketCounter {
    pub fn record(&mut self, n: u64)
        ensures
            final(self).sent == old(self).sent.wrapping_add(n),
    {
        self.sent = self.sent.wrapping_add(n);
    }
}

pub fn outgoing_packet_count(c: &PacketCounter) -> (r: u64)
    ensures
        r == c.sent,
{
    c.sent
}

/// What was read from a connection.
#[derive(Debug, Clone, Copy, PartialEq, Eq, Structural)]
pub enum Read {
    Ping { sequence_id: u32 },
    Message,
    /// An opcode that is not known, with the length of its body.
    UnknownOpcode { size: u32 },
    /// A message that could not be understood.
    Malformed,
    Broken,
}

/// What a reader does with it.
#[derive(Debug, Clone, Copy, PartialEq, Eq, Structural)]
pub enum ReaderAction {
    Pong { sequence_id: u32 },
    Forward,
    Skip { bytes: u32 },
    Continue,
    Stop,
}

pub open spec fn reaction(r: Read) -> ReaderAction {
    match r {
        Read::Ping { sequence_id } => ReaderAction::Pong { sequence_id },
        Read::Message => ReaderAction::Forward,
        Read::UnknownOpcode { size } => ReaderAction::Skip { bytes: size },
        Read::Malformed => ReaderAction::Continue,
        Read::Broken => ReaderAction::Stop,
    }
}

/// A ping is answered at once, what is not understood is passed over, and only a
/// broken connection ends the reader.
pub fn react(r: Read) -> (a: ReaderAction)
    ensures
        a == reaction(r),
{
    match r {
        Read::Ping { sequence_id } => ReaderAction::Pong { sequence_id },
        Read::Message => ReaderAction::Forward,
        Read::UnknownOpcode { size } => ReaderAction::Skip { bytes: size },
        Read::Malformed => ReaderAction::Continue,
        Read::Broken => ReaderAction::Stop,
    }
}

/// A packet begins with its length, high byte first, which counts the opcode and the body;
/// then comes the opcode, low byte first, and then the body.
pub proof fn a_packet_has_its_header(opcode: u16, body: &Vec<u8>, r: Vec<u8>, i: int)
    requires
        call_ensures(frame, (opcode, body), r),
        body@.len() <= 0xfffd,
    ensures
        r@.len() == body@.len() + 4,
        r@[0] as int * 256 + r@[1] == body@.len() + 2,
        r@[2] as int + r@[3] as int * 256 == opcode,
        0 <= i < body@.len() ==> r@[4 + i] == body@[i],
{
}

/// A packet may wait if there is room for it, and then takes as much as it is long; else it
/// is dropped and counted. What was sent gives its room back.
pub proof fn a_budget_is_kept(b: &mut ByteBudget, len: usize, r: bool, c: &mut ByteBudget, drained: usize, u: ())
    requires
        call_ensures(ByteBudget::try_send, (b, len), r),
        call_ensures(ByteBudget::release, (c, drained), u),
        len <= u32::MAX,
        drained <= u32::MAX,
        old(c).available + drained <= usize::MAX,
    ensures
        r <==> len <= old(b).available,
        r ==> final(b).available == old(b).available - len && final(b).dropped == old(b).dropped,
        !r ==> final(b).available == old(b).available && (old(b).dropped < u64::MAX ==> final(b).dropped
            == old(b).dropped + 1),
        final(c).available == old(c).available + drained,
        final(c).dropped == old(c).dropped,
{
}

/// No more than sixty-four packets are written at once.
pub proof fn batches_are_bounded(staged: usize, r: bool)
    requires
        call_ensures(wants_more, (staged,), r),
    ensures
        r <==> staged < 64,
{
}

/// A ping is answered with its number, a message is handed on, what is unknown is passed over
/// as far as it goes, and only a broken connection ends the reader.
pub proof fn what_is_read_is_dealt_with(x: Read, a: ReaderAction, n: u32)
    requires
        call_ensures(react, (x,), a),
    ensures
        x == (Read::Ping { sequence_id: n }) ==> a == (ReaderAction::Pong { sequence_id: n }),
        x is Message ==> a is Forward,
        x == (Read::UnknownOpcode { size: n }) ==> a == (ReaderAction::Skip { bytes: n }),
        x is Malformed ==> a is Continue,
        x is Broken <==> a is Stop,
{
}

/// Of two packets that are put into cipher together, the first comes first, each with its
/// own header in cipher in the place of the plain one, and with its body as it was.
pub proof fn packets_follow_each_other(sealed: &Vec<[u8; 4]>, staging: &Vec<Vec<u8>>, r: Batch, a: Seq<u8>, b: Seq<u8>)
    requires
        sealed@.len() == whole(contents(staging@)).len(),
        bytes_in(contents(staging@)) <= usize::MAX,
        call_ensures(splice, (sealed, staging), r),
        contents(staging@) == seq![a, b],
        a.len() >= 4,
        b.len() >= 4,
    ensures
        r.bytes@ == sealed@[0]@ + a.skip(4) + sealed@[1]@ + b.skip(4),
        r.written == 2,
        r.drained == a.len() + b.len(),
{
    reveal(Seq::filter);
    let s = seq![a, b];
    let f = |p: Seq<u8>| p.len() >= 4;
    assert(s.drop_last() =~= seq![a]);
    assert(seq![a].drop_last() =~= Seq::<Seq<u8>>::empty());
    assert(Seq::<Seq<u8>>::empty().filter(f) =~= Seq::<Seq<u8>>::empty());
    assert(seq![a].filter(f) =~= seq![a]);
    assert(s.filter(f) =~= s);
    assert(whole(s) =~= s);
    assert(spliced(sealed@, seq![a].drop_last()) =~= Seq::<u8>::empty());
    assert(spliced(sealed@, seq![a]) =~= sealed@[0]@ + a.skip(4));
    assert(bytes_in(seq![a].drop_last()) == 0);
    assert(bytes_in(seq![a]) == a.len());
    assert(r.bytes@ =~= sealed@[0]@ + a.skip(4) + sealed@[1]@ + b.skip(4));
}

/// What goes into cipher is what the headers of the packets say, in their order: the length
/// and the opcode of each that is long enough to have a header.
pub proof fn headers_are_taken_in_order(staging: &Vec<Vec<u8>>, r: Vec<(u16, u16)>, i: int)
    requires
        call_ensures(headers_of, (staging,), r),
        forall|j: int| 0 <= j < staging@.len() ==> (#[trigger] staging@[j])@.len() >= 4,
        0 <= i < staging@.len(),
    ensures
        r@.len() == staging@.len(),
        r@[i].0 == staging@[i]@[0] as int * 256 + staging@[i]@[1],
        r@[i].1 == staging@[i]@[3] as int * 256 + staging@[i]@[2],
{
    let s = contents(staging@);
    assert forall|j: int| 0 <= j < s.len() implies (#[trigger] s[j]).len() >= 4 by {
        assert(s[j] == staging@[j]@);
    }
    lemma_all_whole(s);
    assert(s[i] == staging@[i]@);
}

proof fn lemma_all_whole(s: Seq<Seq<u8>>)
    requires
        forall|j: int| 0 <= j < s.len() ==> (#[trigger] s[j]).len() >= 4,
    ensures
        whole(s) == s,
    decreases s.len(),
{
    reveal(Seq::filter);
    if s.len() > 0 {
        let init = s.drop_last();
        assert forall|j: int| 0 <= j < init.len() implies (#[trigger] init[j]).len() >= 4 by {
            assert(init[j] == s[j]);
        }
        lemma_all_whole(init);
        assert(s[s.len() - 1].len() >= 4);
    }
    assert(whole(s) =~= s);
}

/// Headers go into cipher one after the other: each goes on where the one before left the
/// cipher.
pub proof fn headers_are_sealed_in_order(enc: &mut EncrypterHalf, plain: &Vec<(u16, u16)>, r: Vec<[u8; 4]>, x: (u16, u16), y: (u16, u16))
    requires
        call_ensures(encrypt_headers, (enc, plain), r),
        plain@ == seq![x, y],
    ensures
        r@.len() == 2,
        r@[0] == sealed(*old(enc), x.0, x.1).0,
        r@[1] == sealed(sealed(*old(enc), x.0, x.1).1, y.0, y.1).0,
        *final(enc) == sealed(sealed(*old(enc), x.0, x.1).1, y.0, y.1).1,
{
    let s = seq![x, y];
    assert(s.drop_last() =~= seq![x]);
    assert(seq![x].drop_last() =~= Seq::<(u16, u16)>::empty());
    assert(all_sealed(*old(enc), seq![x].drop_last()) == (Seq::<[u8; 4]>::empty(), *old(enc)));
    assert(all_sealed(*old(enc), seq![x]).1 == sealed(*old(enc), x.0, x.1).1);
}

proof fn lemma_same_headers(a: Seq<[u8; 4]>, b: Seq<[u8; 4]>, packets: Seq<Seq<u8>>)
    requires
        forall|i: int| 0 <= i < packets.len() ==> #[trigger] a[i] == b[i],
    ensures
        spliced(a, packets) == spliced(b, packets),
    decreases packets.len(),
{
    if packets.len() > 0 {
        lemma_same_headers(a, b, packets.drop_last());
        assert(a[packets.len() - 1] == b[packets.len() - 1]);
    }
}

/// One more packet goes behind the others, with its header in cipher in the place of the
/// plain one; one that is too short for a header does not go out, but no longer waits either.
pub proof fn one_more_packet_goes_behind(
    sa: &Vec<[u8; 4]>,
    a: &Vec<Vec<u8>>,
    ra: Batch,
    sb: &Vec<[u8; 4]>,
    b: &Vec<Vec<u8>>,
    rb: Batch,
    p: Seq<u8>,
    h: [u8; 4],
)
    requires
        sa@.len() == whole(contents(a@)).len(),
        sb@.len() == whole(contents(b@)).len(),
        bytes_in(contents(a@)) <= usize::MAX,
        bytes_in(contents(b@)) <= usize::MAX,
        call_ensures(splice, (sa, a), ra),
        call_ensures(splice, (sb, b), rb),
        contents(b@) == contents(a@).push(p),
    ensures
        p.len() >= 4 && sb@ == sa@.push(h) ==> rb.bytes@ == ra.bytes@ + h@ + p.skip(4) && rb.written == ra.written + 1,
        p.len() < 4 && sb@ == sa@ ==> rb.bytes@ == ra.bytes@ && rb.written == ra.written,
        rb.drained == ra.drained + p.len(),
        a@.len() == 0 ==> ra.bytes@.len() == 0 && ra.drained == 0,
{
    reveal(Seq::filter);
    let ca = contents(a@);
    let cb = contents(b@);
    assert(cb.drop_last() =~= ca);
    assert(cb.last() == p);
    let wa = whole(ca);
    let wb = whole(cb);
    if p.len() >= 4 {
        assert(wb == wa.push(p));
        assert(wb.drop_last() =~= wa);
        if sb@ == sa@.push(h) {
            lemma_same_headers(sa@, sb@, wa);
            assert(sb@[wa.len() as int] == h);
        }
    } else {
        assert(wb == wa);
    }
    if a@.len() == 0 {
        assert(ca =~= Seq::<Seq<u8>>::empty());
        assert(wa =~= Seq::<Seq<u8>>::empty());
    }
}

/// A batch is what becomes of its packets when their headers are taken, put into cipher in
/// their order, and put back.
pub proof fn a_batch_is_its_packets_in_cipher(
    a: &mut EncrypterHalf,
    b: &mut EncrypterHalf,
    staging: &Vec<Vec<u8>>,
    r: Batch,
    plain: &Vec<(u16, u16)>,
    hs: Vec<[u8; 4]>,
    s: Batch,
)
    requires
        bytes_in(contents(staging@)) <= usize::MAX,
        call_ensures(encrypt_batch, (a, staging), r),
        call_ensures(headers_of, (staging,), *plain),
        *old(a) == *old(b),
        call_ensures(encrypt_headers, (b, plain), hs),
        call_ensures(splice, (&hs, staging), s),
    ensures
        r.bytes@ == s.bytes@,
        r.written == s.written,
        r.drained == s.drained,
        *final(a) == *final(b),
{
}

} // verus!
