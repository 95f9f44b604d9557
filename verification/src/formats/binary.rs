//! The packed binary format: 12-bit words, most significant bit first, with
//! no padding between words and the last byte filled up with zero bits.
use crate::data::{
    lemma_ctrl_code, lemma_inst_code, lemma_word_round_trip, lemma_words_of_step, words_of, Node,
    NodeView, Nodes, Word,
};
use bitbit::{BitReader, BitWriter, MSB};
use vstd::arithmetic::power2::{lemma2_to64, lemma_pow2_unfold, pow2};
use vstd::prelude::*;

verus! {

/// The number of bits of one code word.
pub const WORD_BITS: usize = 12;

/// The `count` low bits of `val`, the most significant of them first.
pub open spec fn msb_bits(val: nat, count: nat) -> Seq<bool>
    decreases count,
{
    if count == 0 {
        Seq::empty()
    } else {
        msb_bits(val / 2, (count - 1) as nat).push(val % 2 == 1)
    }
}

/// The number that `bits` spell, the most significant bit first.
pub open spec fn msb_value(bits: Seq<bool>) -> nat
    decreases bits.len(),
{
    if bits.len() == 0 {
        0
    } else {
        2 * msb_value(bits.drop_last()) + if bits.last() {
            1nat
        } else {
            0nat
        }
    }
}

/// The bits of a byte sequence: eight for each byte, in order, the most
/// significant bit of a byte first.
pub open spec fn stream_bits(bytes: Seq<u8>) -> Seq<bool> {
    Seq::new(8 * bytes.len(), |j: int| msb_bits(bytes[j / 8] as nat, 8)[j % 8])
}

/// The bytes that hold `bits`, eight to a byte; a last group of fewer than
/// eight bits is left out.
pub open spec fn packed(bits: Seq<bool>) -> Seq<u8> {
    Seq::new(bits.len() / 8, |i: int| msb_value(bits.subrange(8 * i, 8 * i + 8)) as u8)
}

/// `bits`, followed by as many zero bits as bring the length to the next
/// multiple of eight.
pub open spec fn padded(bits: Seq<bool>) -> Seq<bool> {
    bits + Seq::new(((8 - bits.len() % 8) % 8) as nat, |j: int| false)
}

/// The twelve bits of a word: four of the instruction code, six of the
/// address, two of the control code.
pub open spec fn word_bits(word: Word) -> Seq<bool> {
    msb_bits(word.0.code() as nat, 4) + msb_bits(word.1.value() as nat, 6) + msb_bits(
        word.2.code() as nat,
        2,
    )
}

/// The bits of a sequence of words, one word after the other.
pub open spec fn words_bits(words: Seq<Word>) -> Seq<bool> {
    Seq::new(12 * words.len(), |j: int| word_bits(words[j / 12])[j % 12])
}

/// The binary form of a sequence of words.
pub open spec fn encoded(words: Seq<Word>) -> Seq<u8> {
    packed(padded(words_bits(words)))
}

/// The words that a byte sequence holds: one for each full group of twelve
/// bits; what is left over at the end is padding.
pub open spec fn decoded(bytes: Seq<u8>) -> Seq<Word> {
    Seq::new(
        8 * bytes.len() / 12,
        |i: int| Word::decode(msb_value(stream_bits(bytes).subrange(12 * i, 12 * i + 12)) as u32),
    )
}

/// A `bitbit::BitWriter` that writes into a byte vector.
#[verifier::external_body]
pub struct BitSink {
    writer: BitWriter<Vec<u8>>,
}

/// A `bitbit::BitReader` that reads a byte slice, most significant bit first.
#[verifier::external_body]
pub struct BitSource<'a> {
    reader: BitReader<&'a [u8], MSB>,
}

/// All the bits written to a sink so far, in the order of writing.
pub uninterp spec fn written_bits(sink: BitSink) -> Seq<bool>;

/// The bits that remain to be read from a source, in the order of reading.
pub uninterp spec fn unread_bits(source: BitSource) -> Seq<bool>;

/// `BitWriter::new` on an empty vector: nothing is written yet.
#[verifier::external_body]
fn sink_new() -> (sink: BitSink)
    ensures
        written_bits(sink) == Seq::<bool>::empty(),
{
    BitSink { writer: BitWriter::new(Vec::new()) }
}

/// `BitWriter::write_bits`: appends the `nbits` low bits of `val`, the most
/// significant first. Writing into a vector cannot fail. With `nbits` zero
/// the outside function computes `nbits - 1`, so that is left out.
#[verifier::external_body]
fn sink_write_bits(sink: &mut BitSink, val: u32, nbits: usize)
    requires
        1 <= nbits <= 32,
    ensures
        written_bits(*final(sink)) == written_bits(*old(sink)) + msb_bits(val as nat, nbits as nat),
{
    let _ = sink.writer.write_bits(val, nbits);
}

/// `BitWriter::pad_to_byte`: appends zero bits up to the next byte boundary,
/// none where the writer stands on one.
#[verifier::external_body]
fn sink_pad_to_byte(sink: &mut BitSink)
    ensures
        written_bits(*final(sink)) == padded(written_bits(*old(sink))),
{
    let _ = sink.writer.pad_to_byte();
}

/// `BitWriter::get_ref`: the vector holds every full byte written so far.
#[verifier::external_body]
fn sink_bytes(sink: BitSink) -> (bytes: Vec<u8>)
    ensures
        bytes@ == packed(written_bits(sink)),
{
    let mut sink = sink;
    sink.writer.get_ref().clone()
}

/// `BitReader::new` on a byte slice: all its bits are still to be read.
#[verifier::external_body]
fn source_new<'a>(bytes: &'a [u8]) -> (source: BitSource<'a>)
    ensures
        unread_bits(source) == stream_bits(bytes@),
{
    BitSource { reader: BitReader::new(bytes) }
}

/// `BitReader::read_bits`: takes the next `nbits` bits and gives the number
/// that they spell, the first bit read as the highest. It fails where fewer
/// bits remain: reading a slice has no other way to fail.
#[verifier::external_body]
fn source_read_bits(source: &mut BitSource, nbits: usize) -> (bits: Option<u32>)
    requires
        nbits <= 32,
    ensures
        bits is Some <==> nbits <= unread_bits(*old(source)).len(),
        bits matches Some(val) ==> val == msb_value(unread_bits(*old(source)).take(nbits as int))
            && unread_bits(*final(source)) == unread_bits(*old(source)).skip(nbits as int),
{
    source.reader.read_bits(nbits).ok()
}

/// serialize nodes to binary: the words in order, comments skipped
pub fn serialize(nodes: Nodes) -> (bytes: Vec<u8>)
    ensures
        bytes@ == encoded(words_of(nodes@)),
        bytes@.len() == (12 * words_of(nodes@).len() + 7) / 8,
{
    proof {
        lemma_encoded_len(words_of(nodes@));
    }
    let mut sink = sink_new();
    let Nodes(nodes) = nodes;
    let ghost views = Seq::new(nodes@.len(), |i: int| nodes@[i]@);
    let mut done: usize = 0;

    while done < nodes.len()
        invariant
            done <= nodes.len(),
            views == Seq::new(nodes@.len(), |i: int| nodes@[i]@),
            written_bits(sink) == words_bits(words_of(views.take(done as int))),
        decreases nodes.len() - done,
    {
        proof {
            lemma_words_of_step(views, done as int);
        }
        if let Some(word) = nodes[done].word() {
            proof {
                lemma_words_bits_push(words_of(views.take(done as int)), word);
            }
            sink_write_bits(&mut sink, word.inst().val(), 4);
            sink_write_bits(&mut sink, word.addr().val(), 6);
            sink_write_bits(&mut sink, word.ctrl().val(), 2);
        }
        done += 1;
    }
    assert(views.take(done as int) == views);

    sink_pad_to_byte(&mut sink);
    sink_bytes(sink)
}

/// deserialize words from binary: reads twelve bits at a time until fewer
/// are left
pub fn deserialize(input: &[u8]) -> (nodes: Nodes)
    ensures
        nodes@ == decoded(input@).map_values(|word: Word| NodeView::Word(word)),
{
    let mut source = source_new(input);
    let mut nodes: Vec<Node> = Vec::new();
    let ghost bits = stream_bits(input@);

    loop
        invariant_except_break
            unread_bits(source) == bits.skip(12 * nodes@.len() as int),
        invariant
            bits == stream_bits(input@),
            12 * nodes@.len() <= bits.len(),
            forall|i: int|
                0 <= i < nodes@.len() ==> (#[trigger] nodes@[i])@ == NodeView::Word(
                    decoded(input@)[i],
                ),
        ensures
            nodes@.len() == decoded(input@).len(),
            forall|i: int|
                0 <= i < nodes@.len() ==> (#[trigger] nodes@[i])@ == NodeView::Word(
                    decoded(input@)[i],
                ),
        decreases bits.len() - 12 * nodes@.len(),
    {
        let ghost at: int = 12 * nodes@.len() as int;
        match source_read_bits(&mut source, WORD_BITS) {
            None => break ,
            Some(val) => {
                assert(bits.skip(at).take(12) == bits.subrange(at, at + 12));
                nodes.push(Node::from(Word::from(val)));
            },
        }
    }

    Nodes(nodes)
}

/// The bits of a sequence with one more word are the bits of the sequence,
/// then the three fields of that word.
proof fn lemma_words_bits_push(words: Seq<Word>, word: Word)
    ensures
        words_bits(words.push(word)) == words_bits(words) + msb_bits(word.0.code() as nat, 4)
            + msb_bits(word.1.value() as nat, 6) + msb_bits(word.2.code() as nat, 2),
{
    lemma_msb_bits_len(word.0.code() as nat, 4);
    lemma_msb_bits_len(word.1.value() as nat, 6);
    lemma_msb_bits_len(word.2.code() as nat, 2);
}

/// `msb_bits` gives as many bits as were asked for.
pub proof fn lemma_msb_bits_len(val: nat, count: nat)
    ensures
        msb_bits(val, count).len() == count,
    decreases count,
{
    if count > 0 {
        lemma_msb_bits_len(val / 2, (count - 1) as nat);
    }
}

/// The number that `bits` spell is below two to the power of their count.
pub proof fn lemma_msb_value_bound(bits: Seq<bool>)
    ensures
        msb_value(bits) < pow2(bits.len()),
    decreases bits.len(),
{
    if bits.len() == 0 {
        lemma2_to64();
    } else {
        lemma_msb_value_bound(bits.drop_last());
        lemma_pow2_unfold(bits.len());
    }
}

/// A number below two to the power of `count` is spelt by its `count` low
/// bits.
pub proof fn lemma_value_of_bits(val: nat, count: nat)
    requires
        val < pow2(count),
    ensures
        msb_value(msb_bits(val, count)) == val,
    decreases count,
{
    if count == 0 {
        lemma2_to64();
    } else {
        lemma_pow2_unfold(count);
        lemma_value_of_bits(val / 2, (count - 1) as nat);
        assert(msb_bits(val, count).drop_last() =~= msb_bits(val / 2, (count - 1) as nat));
    }
}

/// The bits of the number that `bits` spell are `bits` again.
pub proof fn lemma_bits_of_value(bits: Seq<bool>)
    ensures
        msb_bits(msb_value(bits), bits.len()) == bits,
    decreases bits.len(),
{
    if bits.len() > 0 {
        lemma_bits_of_value(bits.drop_last());
    }
}

/// Bits written one group after the other spell the first group's number,
/// moved left by the length of the second, plus the second group's number.
pub proof fn lemma_msb_value_concat(high: Seq<bool>, low: Seq<bool>)
    ensures
        msb_value(high + low) == msb_value(high) * pow2(low.len()) + msb_value(low),
    decreases low.len(),
{
    if low.len() == 0 {
        lemma2_to64();
    } else {
        lemma_msb_value_concat(high, low.drop_last());
        lemma_pow2_unfold(low.len());
        assert((high + low).drop_last() =~= high + low.drop_last());
        assert(msb_value(high) * (2 * pow2((low.len() - 1) as nat)) == 2 * (msb_value(high)
            * pow2((low.len() - 1) as nat))) by (nonlinear_arith);
    }
}

/// The twelve bits of a well-formed word spell its encoding.
pub proof fn lemma_word_bits_value(word: Word)
    requires
        word.wf(),
    ensures
        word_bits(word).len() == 12,
        msb_value(word_bits(word)) == word.encode(),
{
    let inst = msb_bits(word.0.code() as nat, 4);
    let addr = msb_bits(word.1.value() as nat, 6);
    let ctrl = msb_bits(word.2.code() as nat, 2);
    lemma2_to64();
    lemma_inst_code(word.0.0);
    lemma_ctrl_code(word.2.0);
    word.1.lemma_wf();
    lemma_word_round_trip(word);
    lemma_msb_bits_len(word.0.code() as nat, 4);
    lemma_msb_bits_len(word.1.value() as nat, 6);
    lemma_msb_bits_len(word.2.code() as nat, 2);
    lemma_value_of_bits(word.0.code() as nat, 4);
    lemma_value_of_bits(word.1.value() as nat, 6);
    lemma_value_of_bits(word.2.code() as nat, 2);
    lemma_msb_value_concat(inst, addr);
    lemma_msb_value_concat(inst + addr, ctrl);
}

/// Bits that fill whole bytes are the bits of the bytes that hold them.
pub proof fn lemma_stream_of_packed(bits: Seq<bool>)
    requires
        bits.len() % 8 == 0,
    ensures
        stream_bits(packed(bits)) == bits,
{
    let bytes = packed(bits);
    assert forall|j: int| 0 <= j < bits.len() implies stream_bits(bytes)[j] == bits[j] by {
        let group = bits.subrange(8 * (j / 8), 8 * (j / 8) + 8);
        lemma2_to64();
        lemma_msb_value_bound(group);
        lemma_bits_of_value(group);
    }
}

/// The binary form of `n` words has `ceil(12 * n / 8)` bytes.
pub proof fn lemma_encoded_len(words: Seq<Word>)
    ensures
        encoded(words).len() == (12 * words.len() + 7) / 8,
        padded(words_bits(words)).len() % 8 == 0,
        12 * words.len() <= padded(words_bits(words)).len() < 12 * words.len() + 8,
{
}

/// Round trip: the binary form of a sequence of well-formed words decodes
/// to that sequence.
pub proof fn lemma_round_trip(words: Seq<Word>)
    requires
        forall|i: int| 0 <= i < words.len() ==> (#[trigger] words[i]).wf(),
    ensures
        decoded(encoded(words)) == words,
{
    let bits = padded(words_bits(words));
    let bytes = encoded(words);
    lemma_encoded_len(words);
    lemma_stream_of_packed(bits);
    assert forall|i: int| 0 <= i < words.len() implies decoded(bytes)[i] == words[i] by {
        let group = stream_bits(bytes).subrange(12 * i, 12 * i + 12);
        lemma_word_bits_value(words[i]);
        lemma_word_round_trip(words[i]);
        assert(group =~= word_bits(words[i]));
    }
}

/// Nodes whose words are well formed serialize to bytes that hold exactly
/// those words: comments leave nothing in the binary form.
pub proof fn lemma_nodes_round_trip(nodes: Seq<NodeView>)
    requires
        forall|i: int|
            0 <= i < nodes.len() ==> (#[trigger] nodes[i] matches NodeView::Word(word)
                ==> word.wf()),
    ensures
        decoded(encoded(words_of(nodes))) == words_of(nodes),
{
    let pick = |node: NodeView|
        match node {
            NodeView::Word(word) => Some(word),
            NodeView::Comment(_) => None,
        };
    let words = words_of(nodes);
    assert forall|i: int| 0 <= i < words.len() implies (#[trigger] words[i]).wf() by {
        assert(words.contains(words[i]));
        nodes.lemma_filter_map_contains(pick, words[i]);
        let node = choose|node: NodeView| #[trigger]
            nodes.contains(node) && pick(node) == Some(words[i]);
        let at = choose|at: int| 0 <= at < nodes.len() && nodes[at] == node;
        assert(nodes[at] matches NodeView::Word(word) ==> word.wf());
    }
    lemma_round_trip(words);
}

/// Nodes that are all comments serialize to no bytes at all.
pub proof fn lemma_comments_have_no_bytes(nodes: Seq<NodeView>)
    requires
        forall|i: int| 0 <= i < nodes.len() ==> #[trigger] nodes[i] is Comment,
    ensures
        words_of(nodes).len() == 0,
        encoded(words_of(nodes)).len() == 0,
    decreases nodes.len(),
{
    if nodes.len() > 0 {
        lemma_comments_have_no_bytes(nodes.drop_last());
    }
    lemma_encoded_len(words_of(nodes));
}

} // verus!
