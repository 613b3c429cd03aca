//! Splitting an instruction across datagrams, and putting it back together.
//!
//! A fragment begins with a header: an 8-byte instruction id and a 2-byte fragment
//! number, both big-endian, with the top bit of the fragment number marking the last
//! fragment.

use vstd::prelude::*;
use vstd::slice::*;

use crate::big_endian::{
    be_bytes, be_value, from_be, lemma_be_bytes_round_trip, lemma_be_number_round_trip,
    lemma_pow256, to_be,
};
use crate::compressor::{compress, uncompress, uncompressed, zlib_deflated, BUFFER_SIZE};
use crate::protobufs::transport::{
    instruction_in, instructions_round_trip, Instruction, InstructionView,
};
use crate::protobufs::Message;
use crate::text::bytes_eq;
use crate::views::{group_views, views};

verus! {

broadcast use group_views;

/// Bytes of header in front of every fragment.
pub const FRAG_HEADER_LEN: usize = 10;

/// The top bit of the fragment number marks the final fragment, which leaves 15 bits of
/// fragment number and so an effective limit on how large one instruction may be.
pub const FINAL_BIT: u16 = 0x8000;

#[derive(Debug, Clone, Copy, PartialEq, Eq, Structural)]
pub enum FragmentError {
    /// Shorter than the header.
    TooShort,
    /// More fragments than the numbering allows.
    TooManyFragments,
    /// The reassembled payload was not a valid instruction.
    Malformed,
}

impl FragmentError {
    /// The message for a person.
    pub open spec fn message(self) -> Seq<char> {
        match self {
            FragmentError::TooShort => "datagram is shorter than a fragment header"@,
            FragmentError::TooManyFragments => "instruction needs too many fragments"@,
            FragmentError::Malformed => "could not parse reassembled instruction"@,
        }
    }

    /// The message for a person.
    pub fn text(&self) -> (s: &'static str)
        ensures
            s@ == self.message(),
    {
        match self {
            FragmentError::TooShort => "datagram is shorter than a fragment header",
            FragmentError::TooManyFragments => "instruction needs too many fragments",
            FragmentError::Malformed => "could not parse reassembled instruction",
        }
    }
}

/// One piece of an instruction.
#[verifier::ext_equal]
pub struct FragmentView {
    pub id: u64,
    pub fragment_num: u16,
    pub final_fragment: bool,
    pub contents: Seq<u8>,
}

impl FragmentView {
    /// The number and the final marker in one.
    pub open spec fn combined(self) -> nat {
        if self.final_fragment {
            (FINAL_BIT + self.fragment_num) as nat
        } else {
            self.fragment_num as nat
        }
    }

    /// The bytes on the wire. The number must leave the top bit free for the final marker.
    pub open spec fn bytes(self) -> Result<Seq<u8>, FragmentError> {
        if self.fragment_num >= FINAL_BIT {
            Err(FragmentError::TooManyFragments)
        } else {
            Ok(be_bytes(self.id as nat, 8) + be_bytes(self.combined(), 2) + self.contents)
        }
    }
}

/// The fragment that bytes from the wire hold.
pub open spec fn fragment_in(x: Seq<u8>) -> Result<FragmentView, FragmentError> {
    if x.len() < FRAG_HEADER_LEN {
        Err(FragmentError::TooShort)
    } else {
        let combined = be_value(x.subrange(8, 10));
        Ok(
            FragmentView {
                id: be_value(x.subrange(0, 8)) as u64,
                fragment_num: (combined % FINAL_BIT as nat) as u16,
                final_fragment: combined >= FINAL_BIT,
                contents: x.skip(10),
            },
        )
    }
}

#[derive(Debug, PartialEq, Eq)]
pub struct Fragment {
    pub id: u64,
    pub fragment_num: u16,
    pub final_fragment: bool,
    pub contents: Vec<u8>,
}

impl View for Fragment {
    type V = FragmentView;

    open spec fn view(&self) -> FragmentView {
        FragmentView {
            id: self.id,
            fragment_num: self.fragment_num,
            final_fragment: self.final_fragment,
            contents: self.contents@,
        }
    }
}

impl Clone for Fragment {
    fn clone(&self) -> (f: Self)
        ensures
            f@ == self@,
    {
        let contents = slice_to_vec(self.contents.as_slice());
        assert(contents@ =~= self.contents@);
        Fragment {
            id: self.id,
            fragment_num: self.fragment_num,
            final_fragment: self.final_fragment,
            contents,
        }
    }
}

impl Fragment {
    pub fn new(id: u64, fragment_num: u16, final_fragment: bool, contents: Vec<u8>) -> (f: Self)
        ensures
            f@ == (FragmentView { id, fragment_num, final_fragment, contents: contents@ }),
    {
        Fragment { id, fragment_num, final_fragment, contents }
    }

    pub fn to_bytes(&self) -> (r: Result<Vec<u8>, FragmentError>)
        ensures
            match self@.bytes() {
                Ok(b) => r matches Ok(bytes) && bytes@ == b,
                Err(e) => r matches Err(f) && f == e,
            },
    {
        if self.fragment_num >= FINAL_BIT {
            return Err(FragmentError::TooManyFragments);
        }
        let combined: u16 = if self.final_fragment {
            FINAL_BIT + self.fragment_num
        } else {
            self.fragment_num
        };
        let mut out: Vec<u8> = to_be(self.id, 8);
        let mut number = to_be(combined as u64, 2);
        out.append(&mut number);
        out.extend_from_slice(self.contents.as_slice());
        assert(out@ =~= be_bytes(self@.id as nat, 8) + be_bytes(self@.combined(), 2)
            + self@.contents);
        Ok(out)
    }

    pub fn from_bytes(x: &[u8]) -> (r: Result<Self, FragmentError>)
        ensures
            match fragment_in(x@) {
                Ok(f) => r matches Ok(fragment) && fragment@ == f,
                Err(e) => r matches Err(f) && f == e,
            },
    {
        if x.len() < FRAG_HEADER_LEN {
            return Err(FragmentError::TooShort);
        }
        let first = slice_subrange(x, 0, 8);
        let second = slice_subrange(x, 8, 10);
        proof {
            lemma_be_bytes_round_trip(first@);
            lemma_be_bytes_round_trip(second@);
            lemma_pow256();
        }
        let id = from_be(first);
        let combined: u16 = from_be(second) as u16;
        let contents = slice_to_vec(slice_subrange(x, 10, x.len()));
        assert(contents@ =~= x@.skip(10));
        Ok(
            Fragment {
                id,
                fragment_num: combined % FINAL_BIT,
                final_fragment: combined >= FINAL_BIT,
                contents,
            },
        )
    }
}

/// A fragment is read back from its wire form.
pub proof fn fragments_round_trip(f: FragmentView)
    requires
        f.bytes() is Ok,
    ensures
        fragment_in(f.bytes()->Ok_0) == Ok::<FragmentView, FragmentError>(f),
{
    let x = f.bytes()->Ok_0;
    lemma_pow256();
    lemma_be_number_round_trip(f.id as nat, 8);
    lemma_be_number_round_trip(f.combined(), 2);
    assert(x.subrange(0, 8) =~= be_bytes(f.id as nat, 8));
    assert(x.subrange(8, 10) =~= be_bytes(f.combined(), 2));
    assert(x.skip(10) =~= f.contents);
}

/// What is read as a fragment is the wire form of that fragment: nothing is read that would
/// not have been written.
pub proof fn what_is_read_is_what_was_written(x: Seq<u8>)
    requires
        fragment_in(x) is Ok,
    ensures
        fragment_in(x)->Ok_0.bytes() == Ok::<Seq<u8>, FragmentError>(x),
{
    let f = fragment_in(x)->Ok_0;
    lemma_pow256();
    lemma_be_bytes_round_trip(x.subrange(0, 8));
    lemma_be_bytes_round_trip(x.subrange(8, 10));
    assert(f.bytes()->Ok_0 =~= x);
}

/// The views of optional fragments.
pub open spec fn slot_view(f: Option<Fragment>) -> Option<FragmentView> {
    match f {
        Some(x) => Some(x@),
        None => None,
    }
}

/// Fragments that were collected, by number.
pub type Slots = Seq<Option<FragmentView>>;

/// With room for `n` fragments.
pub open spec fn widened(slots: Slots, n: nat) -> Slots {
    if slots.len() < n {
        slots + Seq::new((n - slots.len()) as nat, |i: int| None::<FragmentView>)
    } else {
        slots
    }
}

/// What the fragments say together, if none is missing.
pub open spec fn joined(slots: Slots) -> Option<Seq<u8>>
    decreases slots.len(),
{
    if slots.len() == 0 {
        Some(Seq::empty())
    } else {
        match (joined(slots.drop_last()), slots.last()) {
            (Some(before), Some(f)) => Some(before + f.contents),
            _ => None,
        }
    }
}

/// The instruction in a complete payload.
pub open spec fn payload_parsed(payload: Seq<u8>) -> Result<InstructionView, FragmentError> {
    match uncompressed(payload) {
        Err(_) => Err(FragmentError::Malformed),
        Ok(plain) => match instruction_in(plain) {
            None => Err(FragmentError::Malformed),
            Some(inst) => Ok(inst),
        },
    }
}

/// A collection of fragments.
#[verifier::ext_equal]
pub struct AssemblyView {
    pub fragments: Slots,
    pub fragments_total: Option<nat>,
    pub current_id: Option<u64>,
}

impl AssemblyView {
    /// Nothing was collected yet.
    pub open spec fn initial() -> AssemblyView {
        AssemblyView { fragments: Seq::empty(), fragments_total: None, current_id: None }
    }

    /// With the slot of a fragment filled. A final fragment tells how many there are, and
    /// what was numbered past it is dropped.
    pub open spec fn filled(self, f: FragmentView) -> AssemblyView {
        let i = f.fragment_num as int;
        let slots = self.fragments.update(i, Some(f));
        AssemblyView {
            fragments: if f.final_fragment {
                slots.take(i + 1)
            } else {
                slots
            },
            fragments_total: if f.final_fragment {
                Some((i + 1) as nat)
            } else {
                self.fragments_total
            },
            ..self
        }
    }

    /// Collecting another instruction, of which nothing has arrived yet.
    pub open spec fn restarted(self, id: u64) -> AssemblyView {
        AssemblyView {
            fragments: Seq::empty(),
            fragments_total: None,
            current_id: Some(id),
        }
    }

    /// After a fragment. One of a different instruction supersedes what was collected. A
    /// duplicate is ignored, since the network is allowed to deliver the same datagram
    /// twice, and so is one that is numbered past the final fragment.
    pub open spec fn added(self, f: FragmentView) -> AssemblyView {
        let before = if self.current_id == Some(f.id) {
            self
        } else {
            self.restarted(f.id)
        };
        if before.fragments_total matches Some(n) && f.fragment_num >= n {
            before
        } else {
            let wide = AssemblyView {
                fragments: widened(before.fragments, (f.fragment_num + 1) as nat),
                ..before
            };
            if wide.fragments[f.fragment_num as int] is Some {
                wide
            } else {
                wide.filled(f)
            }
        }
    }

    /// Has the whole instruction arrived: is it known how many fragments there are, and is
    /// none of them missing?
    pub open spec fn complete(self) -> bool {
        &&& self.fragments_total == Some(self.fragments.len())
        &&& forall|i: int| 0 <= i < self.fragments.len() ==> #[trigger] self.fragments[i] is Some
    }

    /// The instruction that was collected.
    pub open spec fn instruction(self) -> Result<InstructionView, FragmentError> {
        match joined(self.fragments) {
            None => Err(FragmentError::Malformed),
            Some(payload) => payload_parsed(payload),
        }
    }

    /// With the instruction taken out.
    pub open spec fn emptied(self) -> AssemblyView {
        AssemblyView {
            fragments: Seq::empty(),
            fragments_total: None,
            ..self
        }
    }
}

/// Collects the fragments of one instruction until it is complete.
#[derive(Debug)]
pub struct FragmentAssembly {
    fragments: Vec<Option<Fragment>>,
    /// None until the final fragment tells how many there are.
    fragments_total: Option<usize>,
    current_id: Option<u64>,
}

impl View for FragmentAssembly {
    type V = AssemblyView;

    closed spec fn view(&self) -> AssemblyView {
        AssemblyView {
            fragments: self.fragments@.map_values(|f: Option<Fragment>| slot_view(f)),
            fragments_total: match self.fragments_total {
                Some(n) => Some(n as nat),
                None => None,
            },
            current_id: self.current_id,
        }
    }
}

impl Default for FragmentAssembly {
    fn default() -> (a: Self)
        ensures
            a@ == AssemblyView::initial(),
    {
        FragmentAssembly::new()
    }
}

impl FragmentAssembly {
    pub fn new() -> (a: Self)
        ensures
            a@ == AssemblyView::initial(),
    {
        let a = FragmentAssembly {
            fragments: Vec::new(),
            fragments_total: None,
            current_id: None,
        };
        assert(a@.fragments =~= Seq::empty());
        a
    }

    fn widen(&mut self, n: usize)
        ensures
            final(self)@ == (AssemblyView {
                fragments: widened(old(self)@.fragments, n as nat),
                ..old(self)@
            }),
    {
        while self.fragments.len() < n
            invariant
                self@ == (AssemblyView {
                    fragments: widened(old(self)@.fragments, self.fragments@.len()),
                    ..old(self)@
                }),
                old(self)@.fragments.len() <= self.fragments@.len(),
                self.fragments@.len() <= n || self.fragments@.len() == old(
                    self,
                )@.fragments.len(),
            decreases n - self.fragments@.len(),
        {
            let ghost before = self@.fragments;
            self.fragments.push(None);
            assert(self@.fragments =~= before.push(None));
            assert(before.push(None) =~= widened(old(self)@.fragments, self.fragments@.len()));
        }
        assert(self@.fragments =~= widened(old(self)@.fragments, n as nat));
    }

    /// Add a fragment. Returns whether the instruction is now complete.
    pub fn add_fragment(&mut self, frag: Fragment) -> (complete: bool)
        ensures
            final(self)@ == old(self)@.added(frag@),
            complete == final(self)@.complete(),
    {
        let index: usize = frag.fragment_num as usize;
        let same: bool = match self.current_id {
            Some(id) => id == frag.id,
            None => false,
        };
        if !same {
            self.fragments.clear();
            self.fragments_total = None;
            self.current_id = Some(frag.id);
            assert(self@ =~= old(self)@.restarted(frag@.id));
        }
        let past_the_end: bool = match self.fragments_total {
            Some(n) => index >= n,
            None => false,
        };
        if !past_the_end {
            self.widen(index + 1);
            let ghost wide = self@;
            assert(self.fragments@.len() == wide.fragments.len());
            if self.fragments[index].is_none() {
                let ghost f = frag@;
                let final_fragment = frag.final_fragment;
                self.fragments[index] = Some(frag);
                assert(self@.fragments =~= wide.fragments.update(index as int, Some(f)));
                if final_fragment {
                    self.fragments_total = Some(index + 1);
                    self.fragments.truncate(index + 1);
                }
                assert(self@.fragments =~= wide.filled(f).fragments);
            }
        }
        self.is_complete()
    }

    /// Has the whole instruction arrived?
    fn is_complete(&self) -> (complete: bool)
        ensures
            complete == self@.complete(),
    {
        match self.fragments_total {
            Some(n) => {
                if n != self.fragments.len() {
                    return false;
                }
            },
            None => {
                return false;
            },
        }
        let mut i: usize = 0;
        while i < self.fragments.len()
            invariant
                i <= self.fragments@.len(),
                self@.fragments.len() == self.fragments@.len(),
                forall|k: int| 0 <= k < i ==> #[trigger] self@.fragments[k] is Some,
            decreases self.fragments@.len() - i,
        {
            if self.fragments[i].is_none() {
                assert(self@.fragments[i as int] is None);
                return false;
            }
            i = i + 1;
        }
        true
    }

    /// Everything that was collected, if nothing is missing.
    fn payload(&self) -> (r: Option<Vec<u8>>)
        ensures
            match joined(self@.fragments) {
                Some(s) => r matches Some(v) && v@ == s,
                None => r is None,
            },
    {
        let mut encoded: Vec<u8> = Vec::new();
        let mut i: usize = 0;
        let ghost slots = self@.fragments;
        assert(slots.subrange(0, 0) =~= Seq::empty());
        while i < self.fragments.len()
            invariant
                slots == self@.fragments,
                slots.len() == self.fragments@.len(),
                i <= slots.len(),
                joined(slots.subrange(0, i as int)) == Some(encoded@),
            decreases slots.len() - i,
        {
            let ghost next = slots.subrange(0, i + 1);
            assert(next.drop_last() =~= slots.subrange(0, i as int));
            match &self.fragments[i] {
                Some(f) => {
                    encoded.extend_from_slice(f.contents.as_slice());
                },
                None => {
                    proof {
                        lemma_missing_fragment(slots, i as int);
                    }
                    return None;
                },
            }
            i = i + 1;
        }
        assert(slots.subrange(0, i as int) =~= slots);
        Some(encoded)
    }

    /// Reassemble, decompress and parse the completed instruction.
    pub fn get_assembly(&mut self) -> (r: Result<Instruction, FragmentError>)
        ensures
            match old(self)@.instruction() {
                Ok(v) => r matches Ok(inst) && inst@ == v && final(self)@ == old(self)@.emptied(),
                Err(e) => r matches Err(f) && f == e && final(self)@ == old(self)@,
            },
    {
        let encoded = match self.payload() {
            Some(encoded) => encoded,
            None => {
                return Err(FragmentError::Malformed);
            },
        };
        let inst = match parse_payload(encoded.as_slice()) {
            Ok(inst) => inst,
            Err(e) => {
                return Err(e);
            },
        };
        self.fragments.clear();
        self.fragments_total = None;
        assert(self@ =~= old(self)@.emptied());
        Ok(inst)
    }
}

/// A payload with a missing fragment is not joined.
proof fn lemma_missing_fragment(slots: Slots, i: int)
    requires
        0 <= i < slots.len(),
        slots[i] is None,
    ensures
        joined(slots) is None,
    decreases slots.len(),
{
    if i < slots.len() - 1 {
        lemma_missing_fragment(slots.drop_last(), i);
    }
}

/// The instruction in a complete payload.
pub fn parse_payload(payload: &[u8]) -> (r: Result<Instruction, FragmentError>)
    ensures
        match payload_parsed(payload@) {
            Ok(v) => r matches Ok(inst) && inst@ == v,
            Err(e) => r matches Err(f) && f == e,
        },
{
    let plain = match uncompress(payload) {
        Ok(plain) => plain,
        Err(_) => {
            return Err(FragmentError::Malformed);
        },
    };
    match Instruction::decode(plain.as_slice()) {
        Ok(inst) => Ok(inst),
        Err(_) => Err(FragmentError::Malformed),
    }
}

/// The fragments of what is left of a payload.
pub open spec fn split(rest: Seq<u8>, size: nat, id: u64, num: nat) -> Seq<FragmentView>
    decreases rest.len(),
{
    if rest.len() <= size || size == 0 {
        seq![
            FragmentView {
                id,
                fragment_num: num as u16,
                final_fragment: true,
                contents: rest,
            },
        ]
    } else {
        seq![
            FragmentView {
                id,
                fragment_num: num as u16,
                final_fragment: false,
                contents: rest.take(size as int),
            },
        ] + split(rest.skip(size as int), size, id, num + 1)
    }
}

/// The size of the contents of a fragment that has to fit in a datagram.
pub open spec fn contents_size(mtu: nat) -> nat {
    if mtu <= FRAG_HEADER_LEN + 1 {
        1
    } else {
        (mtu - FRAG_HEADER_LEN) as nat
    }
}

/// Does anything but the diff differ?
pub open spec fn headers_differ(a: InstructionView, b: InstructionView) -> bool {
    a != InstructionView { diff: a.diff, ..b }
}

/// What the fragmenter remembers.
#[verifier::ext_equal]
pub struct FragmenterView {
    pub next_instruction_id: u64,
    pub last_instruction: Option<InstructionView>,
    pub last_size: Option<nat>,
}

impl FragmenterView {
    pub open spec fn initial() -> FragmenterView {
        FragmenterView { next_instruction_id: 0, last_instruction: None, last_size: None }
    }

    /// Does an instruction need an id of its own? A resent one keeps its id, so that the
    /// receiver takes it for the same instruction.
    pub open spec fn is_new(self, inst: InstructionView, size: nat) -> bool {
        match self.last_instruction {
            None => true,
            Some(last) => headers_differ(inst, last) || self.last_size != Some(size),
        }
    }

    /// After an instruction.
    pub open spec fn advanced(self, inst: InstructionView, size: nat) -> FragmenterView {
        FragmenterView {
            next_instruction_id: if !self.is_new(inst, size) {
                self.next_instruction_id
            } else if self.next_instruction_id == u64::MAX {
                0
            } else {
                (self.next_instruction_id + 1) as u64
            },
            last_instruction: Some(inst),
            last_size: Some(size),
        }
    }

    /// The acknowledgement in the last instruction.
    pub open spec fn last_ack(self) -> u64 {
        match self.last_instruction {
            Some(i) => match i.ack_num {
                Some(n) => n,
                None => 0,
            },
            None => 0,
        }
    }
}

/// Splits instructions into fragments, giving each instruction an id.
#[derive(Debug)]
pub struct Fragmenter {
    next_instruction_id: u64,
    last_instruction: Option<Instruction>,
    last_size: Option<usize>,
}

impl View for Fragmenter {
    type V = FragmenterView;

    closed spec fn view(&self) -> FragmenterView {
        FragmenterView {
            next_instruction_id: self.next_instruction_id,
            last_instruction: match self.last_instruction {
                Some(i) => Some(i@),
                None => None,
            },
            last_size: match self.last_size {
                Some(n) => Some(n as nat),
                None => None,
            },
        }
    }
}

impl Default for Fragmenter {
    fn default() -> (f: Self)
        ensures
            f@ == FragmenterView::initial(),
    {
        Fragmenter::new()
    }
}

fn same_optional_bytes(a: &Option<Vec<u8>>, b: &Option<Vec<u8>>) -> (r: bool)
    ensures
        r == (crate::protobufs::bytes_view(*a) == crate::protobufs::bytes_view(*b)),
{
    match (a, b) {
        (Some(x), Some(y)) => bytes_eq(x.as_slice(), y.as_slice()),
        (None, None) => true,
        _ => false,
    }
}

/// Does anything but the diff differ?
fn headers_changed(a: &Instruction, b: &Instruction) -> (r: bool)
    ensures
        r == headers_differ(a@, b@),
{
    a.old_num != b.old_num || a.new_num != b.new_num || a.ack_num != b.ack_num || a.throwaway_num
        != b.throwaway_num || !same_optional_bytes(&a.chaff, &b.chaff) || a.protocol_version
        != b.protocol_version
}

impl Fragmenter {
    pub fn new() -> (f: Self)
        ensures
            f@ == FragmenterView::initial(),
    {
        Fragmenter { next_instruction_id: 0, last_instruction: None, last_size: None }
    }

    pub fn last_ack_sent(&self) -> (n: u64)
        ensures
            n == self@.last_ack(),
    {
        match &self.last_instruction {
            Some(i) => match i.ack_num {
                Some(n) => n,
                None => 0,
            },
            None => 0,
        }
    }

    /// Remember an instruction, and give it an id.
    fn advance(&mut self, inst: &Instruction, size: usize)
        ensures
            final(self)@ == old(self)@.advanced(inst@, size as nat),
    {
        let changed: bool = match &self.last_instruction {
            None => true,
            Some(last) => headers_changed(inst, last) || self.last_size != Some(size),
        };
        if changed {
            self.next_instruction_id = self.next_instruction_id.wrapping_add(1);
        }
        self.last_instruction = Some(inst.clone());
        self.last_size = Some(size);
    }

    /// Compress an instruction and split it into fragments that fit in `mtu` bytes, with a
    /// new id whenever anything but the diff changed.
    pub fn make_fragments(&mut self, inst: &Instruction, mtu: usize) -> (r: Result<
        Vec<Fragment>,
        FragmentError,
    >)
        ensures
            ({
                let size = contents_size(mtu as nat);
                let after = old(self)@.advanced(inst@, size);
                &&& final(self)@ == after
                &&& match zlib_deflated(Instruction::encoding(inst@)) {
                    None => r matches Err(e) && e == FragmentError::Malformed,
                    Some(payload) => {
                        let pieces = split(payload, size, after.next_instruction_id, 0);
                        if pieces.len() > FINAL_BIT {
                            r matches Err(e) && e == FragmentError::TooManyFragments
                        } else {
                            r matches Ok(v) && views(v@) == pieces && (Instruction::encoding(
                                inst@,
                            ).len() <= BUFFER_SIZE ==> payload_parsed(payload)
                                == Ok::<InstructionView, FragmentError>(inst@))
                        }
                    },
                }
            }),
    {
        let size: usize = if mtu <= FRAG_HEADER_LEN + 1 {
            1
        } else {
            mtu - FRAG_HEADER_LEN
        };
        self.advance(inst, size);
        let serialized = inst.encode_to_vec();
        match compress(serialized.as_slice()) {
            Ok(payload) => {
                proof {
                    if let Some(d) = &inst.diff {
                        assert(d.len() <= u64::MAX);
                    }
                    if let Some(d) = &inst.chaff {
                        assert(d.len() <= u64::MAX);
                    }
                    instructions_round_trip(inst@);
                }
                split_payload(payload.as_slice(), size, self.next_instruction_id)
            },
            Err(_) => Err(FragmentError::Malformed),
        }
    }
}

/// Split a payload into fragments of the given size.
pub fn split_payload(payload: &[u8], size: usize, id: u64) -> (r: Result<
    Vec<Fragment>,
    FragmentError,
>)
    requires
        size >= 1,
    ensures
        ({
            let pieces = split(payload@, size as nat, id, 0);
            if pieces.len() > FINAL_BIT {
                r matches Err(e) && e == FragmentError::TooManyFragments
            } else {
                r matches Ok(v) && views(v@) == pieces
            }
        }),
{
    let mut ret: Vec<Fragment> = Vec::new();
    let mut fragment_num: u16 = 0;
    let mut rest = payload;
    assert(views(ret@) + split(payload@, size as nat, id, 0) =~= split(
        payload@,
        size as nat,
        id,
        0,
    ));
    loop
        invariant
            size >= 1,
            fragment_num <= FINAL_BIT,
            ret@.len() == fragment_num,
            views(ret@) + split(rest@, size as nat, id, fragment_num as nat) == split(
                payload@,
                size as nat,
                id,
                0,
            ),
        decreases rest@.len(),
    {
        if fragment_num == FINAL_BIT {
            return Err(FragmentError::TooManyFragments);
        }
        if rest.len() <= size {
            let last = Fragment::new(id, fragment_num, true, slice_to_vec(rest));
            ret.push(last);
            assert(views(ret@) =~= split(payload@, size as nat, id, 0));
            return Ok(ret);
        }
        let taken = slice_subrange(rest, 0, size);
        assert(taken@ =~= rest@.take(size as int));
        let ghost before = views(ret@);
        ret.push(Fragment::new(id, fragment_num, false, slice_to_vec(taken)));
        let left = slice_subrange(rest, size, rest.len());
        assert(left@ =~= rest@.skip(size as int));
        assert(views(ret@) + split(left@, size as nat, id, (fragment_num + 1) as nat) =~= before
            + split(rest@, size as nat, id, fragment_num as nat));
        rest = left;
        fragment_num = fragment_num + 1;
    }
}

/// Every fragment of a payload has its number, and only the last one is marked as final.
proof fn lemma_split_numbers(rest: Seq<u8>, size: nat, id: u64, num: nat)
    requires
        size >= 1,
        num + split(rest, size, id, num).len() <= FINAL_BIT,
    ensures
        split(rest, size, id, num).len() >= 1,
        forall|k: int|
            0 <= k < split(rest, size, id, num).len() ==> {
                let f = #[trigger] split(rest, size, id, num)[k];
                &&& f.id == id
                &&& f.fragment_num == num + k
                &&& f.final_fragment == (k == split(rest, size, id, num).len() - 1)
            },
    decreases rest.len(),
{
    if rest.len() > size {
        let tail = split(rest.skip(size as int), size, id, num + 1);
        let whole = split(rest, size, id, num);
        assert(whole.len() == tail.len() + 1);
        lemma_split_numbers(rest.skip(size as int), size, id, num + 1);
        assert forall|k: int| 0 <= k < whole.len() implies {
            let f = #[trigger] whole[k];
            &&& f.id == id
            &&& f.fragment_num == num + k
            &&& f.final_fragment == (k == whole.len() - 1)
        } by {
            if k > 0 {
                assert(whole[k] == tail[k - 1]);
            }
        }
    }
}

/// All slots filled with fragments.
pub open spec fn all_filled(pieces: Seq<FragmentView>) -> Slots {
    pieces.map_values(|f: FragmentView| Some(f))
}

proof fn lemma_joined_from_first(f: FragmentView, rest: Seq<FragmentView>)
    ensures
        joined(all_filled(seq![f] + rest)) == match joined(all_filled(rest)) {
            Some(s) => Some(f.contents + s),
            None => None,
        },
    decreases rest.len(),
{
    let whole = all_filled(seq![f] + rest);
    if rest.len() == 0 {
        assert(whole.drop_last() =~= Seq::empty());
        assert(joined(whole.drop_last()) == Some(Seq::<u8>::empty()));
        assert(whole.last() == Some(f));
        assert(all_filled(rest) =~= Seq::empty());
        assert(joined(all_filled(rest)) == Some(Seq::<u8>::empty()));
        assert(Seq::<u8>::empty() + f.contents =~= f.contents + Seq::<u8>::empty());
    } else {
        let init = rest.drop_last();
        lemma_joined_from_first(f, init);
        assert(whole.drop_last() =~= all_filled(seq![f] + init));
        assert(all_filled(rest).drop_last() =~= all_filled(init));
        if let Some(s) = joined(all_filled(init)) {
            assert((f.contents + s) + rest.last().contents =~= f.contents + (s
                + rest.last().contents));
        }
    }
}

/// Joining the fragments of a payload gives the payload back.
pub proof fn joining_undoes_splitting(payload: Seq<u8>, size: nat, id: u64, num: nat)
    requires
        size >= 1,
    ensures
        joined(all_filled(split(payload, size, id, num))) == Some(payload),
    decreases payload.len(),
{
    let whole = split(payload, size, id, num);
    if payload.len() <= size {
        assert(whole + Seq::<FragmentView>::empty() =~= whole);
        lemma_joined_from_first(whole[0], Seq::empty());
        assert(seq![whole[0]] + Seq::<FragmentView>::empty() =~= whole);
        assert(all_filled(Seq::empty()) =~= Seq::empty());
        assert(payload + Seq::<u8>::empty() =~= payload);
    } else {
        let rest = split(payload.skip(size as int), size, id, num + 1);
        joining_undoes_splitting(payload.skip(size as int), size, id, num + 1);
        lemma_joined_from_first(whole[0], rest);
        assert(whole =~= seq![whole[0]] + rest);
        assert(payload.take(size as int) + payload.skip(size as int) =~= payload);
    }
}

/// Has exactly the given part of the fragments been collected?
pub open spec fn collecting(a: AssemblyView, pieces: Seq<FragmentView>, arrived: Set<int>) -> bool {
    let last = pieces.len() - 1;
    &&& a.current_id == Some(pieces[0].id)
    &&& forall|k: int| #[trigger] arrived.contains(k) ==> 0 <= k < a.fragments.len()
    &&& forall|k: int|
        0 <= k < a.fragments.len() ==> #[trigger] a.fragments[k] == if arrived.contains(k) {
            Some(pieces[k])
        } else {
            None
        }
    &&& a.fragments.len() <= pieces.len()
    &&& arrived.contains(last) ==> a.fragments.len() == pieces.len() && a.fragments_total == Some(
        pieces.len(),
    )
    &&& !arrived.contains(last) ==> a.fragments_total is None
}

/// The numbers of all fragments.
pub open spec fn all_numbers(n: nat) -> Set<int> {
    Set::new(|k: int| 0 <= k < n)
}

/// The fragments of a payload as they are made.
pub open spec fn well_numbered(pieces: Seq<FragmentView>) -> bool {
    &&& 1 <= pieces.len() <= FINAL_BIT
    &&& forall|k: int|
        0 <= k < pieces.len() ==> {
            let f = #[trigger] pieces[k];
            &&& f.id == pieces[0].id
            &&& f.fragment_num == k
            &&& f.final_fragment == (k == pieces.len() - 1)
        }
}

/// A further fragment is collected, whichever it is and whether or not it arrived before;
/// and the instruction is complete as soon as every fragment has arrived, and not before.
pub proof fn fragments_may_arrive_in_any_order(
    a: AssemblyView,
    pieces: Seq<FragmentView>,
    arrived: Set<int>,
    k: int,
)
    requires
        well_numbered(pieces),
        collecting(a, pieces, arrived),
        0 <= k < pieces.len(),
    ensures
        collecting(a.added(pieces[k]), pieces, arrived.insert(k)),
        a.added(pieces[k]).complete() == (arrived.insert(k) == all_numbers(pieces.len())),
{
    let b = a.added(pieces[k]);
    let f = pieces[k];
    let last = pieces.len() - 1;
    let all = all_numbers(pieces.len());
    let now = arrived.insert(k);
    if arrived.contains(k) {
        assert(now =~= arrived);
        assert(widened(a.fragments, (f.fragment_num + 1) as nat) =~= a.fragments);
        assert(b =~= a);
    } else {
        let wide = widened(a.fragments, (f.fragment_num + 1) as nat);
        assert(wide[k] is None);
        assert forall|j: int| 0 <= j < b.fragments.len() implies #[trigger] b.fragments[j]
            == if now.contains(j) {
            Some(pieces[j])
        } else {
            None
        } by {
            if j != k && j < a.fragments.len() {
                assert(wide[j] == a.fragments[j]);
            }
        }
    }
    if now == all {
        assert(all.contains(last));
        assert forall|j: int| 0 <= j < b.fragments.len() implies #[trigger] b.fragments[j] is Some by {
            assert(all.contains(j));
        }
    }
    if b.complete() {
        assert forall|j: int| now.contains(j) == all.contains(j) by {
            if all.contains(j) {
                assert(b.fragments[j] is Some);
            }
        }
        assert(now =~= all);
    }
}

/// The fragments of a payload are numbered from zero on, all with the same id, and the
/// last one is marked as final.
pub proof fn split_payloads_are_well_numbered(payload: Seq<u8>, size: nat, id: u64)
    requires
        size >= 1,
        split(payload, size, id, 0).len() <= FINAL_BIT,
    ensures
        well_numbered(split(payload, size, id, 0)),
{
    lemma_split_numbers(payload, size, id, 0);
}

/// The first fragment of an instruction supersedes whatever was collected before.
pub proof fn a_new_instruction_supersedes_a_partial_one(
    a: AssemblyView,
    pieces: Seq<FragmentView>,
    k: int,
)
    requires
        well_numbered(pieces),
        a.current_id != Some(pieces[0].id),
        0 <= k < pieces.len(),
    ensures
        collecting(a.added(pieces[k]), pieces, Set::empty().insert(k)),
        a.added(pieces[k]).complete() == (pieces.len() == 1),
{
    let blank = a.restarted(pieces[0].id);
    let none = Set::<int>::empty();
    assert(collecting(blank, pieces, none));
    fragments_may_arrive_in_any_order(blank, pieces, none, k);
    assert(a.added(pieces[k]) == blank.added(pieces[k]));
    let all = all_numbers(pieces.len());
    if pieces.len() == 1 {
        assert(none.insert(k) =~= all);
    } else {
        assert(all.contains(0) && all.contains(1));
    }
}

/// Once every fragment of a payload has arrived, what was collected is the payload.
pub proof fn a_complete_collection_is_the_payload(
    a: AssemblyView,
    payload: Seq<u8>,
    size: nat,
    id: u64,
)
    requires
        size >= 1,
        split(payload, size, id, 0).len() <= FINAL_BIT,
        collecting(
            a,
            split(payload, size, id, 0),
            all_numbers(split(payload, size, id, 0).len()),
        ),
    ensures
        a.complete(),
        joined(a.fragments) == Some(payload),
        a.instruction() == payload_parsed(payload),
{
    let pieces = split(payload, size, id, 0);
    lemma_split_numbers(payload, size, id, 0);
    joining_undoes_splitting(payload, size, id, 0);
    assert(all_numbers(pieces.len()).contains(pieces.len() - 1));
    assert(a.fragments =~= all_filled(pieces));
}

impl AssemblyView {
    /// After fragments in the order they are given.
    pub open spec fn all_added(self, given: Seq<FragmentView>) -> AssemblyView
        decreases given.len(),
    {
        if given.len() == 0 {
            self
        } else {
            self.all_added(given.drop_last()).added(given.last())
        }
    }

    /// Is nothing collected yet of the instruction with this id?
    pub open spec fn holds_nothing_of(self, id: u64) -> bool {
        self.current_id == Some(id) ==> self.fragments.len() == 0 && self.fragments_total is None
    }
}

/// The first fragment with the given number.
pub open spec fn first_numbered(given: Seq<FragmentView>, n: int) -> Option<FragmentView>
    decreases given.len(),
{
    if given.len() == 0 {
        None
    } else {
        match first_numbered(given.drop_last(), n) {
            Some(f) => Some(f),
            None => if given.last().fragment_num == n {
                Some(given.last())
            } else {
                None
            },
        }
    }
}

/// Is the fragment with this number the final one, and is it there with every one before?
pub open spec fn all_there_to(given: Seq<FragmentView>, n: int) -> bool {
    &&& first_numbered(given, n) matches Some(f) && f.final_fragment
    &&& forall|k: int| 0 <= k <= n ==> #[trigger] first_numbered(given, k) is Some
}

/// Do the fragments of an instruction make it up, where of several with one number the
/// first counts?
pub open spec fn whole(given: Seq<FragmentView>) -> bool {
    exists|n: int| 0 <= n && #[trigger] all_there_to(given, n)
}

/// Is this what is collected from the given fragments of one instruction?
spec fn collected_from(a: AssemblyView, id: u64, given: Seq<FragmentView>) -> bool {
    &&& given.len() > 0 ==> a.current_id == Some(id)
    &&& given.len() == 0 ==> a.holds_nothing_of(id)
    &&& given.len() > 0 ==> match a.fragments_total {
        Some(t) => {
            &&& a.fragments.len() == t
            &&& t >= 1
            &&& a.fragments[t - 1] matches Some(f) && f.final_fragment
            &&& forall|k: int|
                0 <= k < t ==> #[trigger] a.fragments[k] == first_numbered(given, k)
            &&& forall|k: int|
                0 <= k < t - 1 ==> !((#[trigger] first_numbered(given, k)) matches Some(f)
                    && f.final_fragment)
        },
        None => {
            &&& forall|k: int|
                0 <= k < a.fragments.len() ==> #[trigger] a.fragments[k] == first_numbered(given, k)
            &&& forall|k: int|
                k >= a.fragments.len() ==> #[trigger] first_numbered(given, k) is None
            &&& forall|k: int|
                !((#[trigger] first_numbered(given, k)) matches Some(f) && f.final_fragment)
        },
    }
}

proof fn lemma_none_numbered(n: int)
    ensures
        first_numbered(Seq::empty(), n) is None,
{
}

proof fn lemma_collected_one(a: AssemblyView, id: u64, given: Seq<FragmentView>, f: FragmentView)
    requires
        collected_from(a, id, given),
        f.id == id,
    ensures
        collected_from(a.added(f), id, given.push(f)),
{
    let more = given.push(f);
    assert(more.drop_last() =~= given);
    let i = f.fragment_num as int;
    assert forall|k: int| #[trigger] first_numbered(more, k) == match first_numbered(given, k) {
        Some(g) => Some(g),
        None => if i == k {
            Some(f)
        } else {
            None
        },
    } by {}
    if given.len() == 0 {
        assert(given =~= Seq::empty());
        assert forall|k: int| #[trigger] first_numbered(given, k) is None by {
            lemma_none_numbered(k);
        }
    }
    let before = if a.current_id == Some(id) {
        a
    } else {
        a.restarted(id)
    };
    assert(before.fragments_total is None ==> forall|k: int|
        0 <= k < before.fragments.len() ==> #[trigger] before.fragments[k] == first_numbered(
            given,
            k,
        ));
    let b = a.added(f);
    if before.fragments_total matches Some(t) && i >= t {
    } else {
        let wide = widened(before.fragments, (i + 1) as nat);
        assert forall|k: int| 0 <= k < wide.len() implies #[trigger] wide[k] == first_numbered(
            given,
            k,
        ) by {
            if k < before.fragments.len() {
                assert(wide[k] == before.fragments[k]);
            }
        }
        if wide[i] is None {
            assert forall|k: int| 0 <= k < b.fragments.len() implies #[trigger] b.fragments[k]
                == first_numbered(more, k) by {
                if k != i {
                    assert(b.fragments[k] == wide[k]);
                }
            }
            if f.final_fragment {
                assert(b.fragments[i] == Some(f));
            }
        }
    }
}

proof fn lemma_collected(a: AssemblyView, id: u64, given: Seq<FragmentView>)
    requires
        a.holds_nothing_of(id),
        forall|i: int| 0 <= i < given.len() ==> (#[trigger] given[i]).id == id,
    ensures
        collected_from(a.all_added(given), id, given),
    decreases given.len(),
{
    if given.len() > 0 {
        let init = given.drop_last();
        lemma_collected(a, id, init);
        lemma_collected_one(a.all_added(init), id, init, given.last());
        assert(init.push(given.last()) =~= given);
    }
}

/// Whatever fragments of an instruction are given, in whatever order and however often: it
/// is complete exactly when a final fragment and every one numbered below it are among
/// them.
pub proof fn complete_means_every_fragment_arrived(
    a: AssemblyView,
    id: u64,
    given: Seq<FragmentView>,
)
    requires
        a.holds_nothing_of(id),
        given.len() > 0,
        forall|i: int| 0 <= i < given.len() ==> (#[trigger] given[i]).id == id,
    ensures
        a.all_added(given).complete() == whole(given),
        a.all_added(given).complete() ==> joined(a.all_added(given).fragments) is Some,
{
    lemma_collected(a, id, given);
    let b = a.all_added(given);
    if b.complete() {
        let t = b.fragments.len();
        assert(first_numbered(given, t - 1) == b.fragments[t - 1]);
        assert forall|k: int| 0 <= k <= t - 1 implies #[trigger] first_numbered(given, k) is Some by {
            assert(b.fragments[k] is Some);
        }
        assert(all_there_to(given, t - 1));
        lemma_all_joined(b.fragments);
    }
    if whole(given) {
        let n = choose|n: int| 0 <= n && #[trigger] all_there_to(given, n);
        match b.fragments_total {
            None => {
                assert(first_numbered(given, n) is Some);
            },
            Some(t) => {
                assert(n >= t - 1);
                assert forall|k: int| 0 <= k < b.fragments.len() implies #[trigger] b.fragments[k] is Some by {
                    assert(first_numbered(given, k) is Some);
                }
            },
        }
    }
}

proof fn lemma_all_joined(slots: Slots)
    requires
        forall|i: int| 0 <= i < slots.len() ==> #[trigger] slots[i] is Some,
    ensures
        joined(slots) is Some,
    decreases slots.len(),
{
    if slots.len() > 0 {
        let init = slots.drop_last();
        assert forall|i: int| 0 <= i < init.len() implies #[trigger] init[i] is Some by {
            assert(init[i] == slots[i]);
        }
        lemma_all_joined(init);
        assert(slots[slots.len() - 1] is Some);
    }
}

/// A fragment with a number that was given before changes nothing, and so neither does the
/// same fragment given again.
pub proof fn duplicates_change_nothing(
    a: AssemblyView,
    id: u64,
    given: Seq<FragmentView>,
    f: FragmentView,
)
    requires
        a.holds_nothing_of(id),
        forall|i: int| 0 <= i < given.len() ==> (#[trigger] given[i]).id == id,
        f.id == id,
        first_numbered(given, f.fragment_num as int) is Some,
    ensures
        a.all_added(given).added(f) == a.all_added(given),
{
    lemma_collected(a, id, given);
    let b = a.all_added(given);
    let i = f.fragment_num as int;
    if given.len() == 0 {
        lemma_none_numbered(i);
        assert(given =~= Seq::empty());
    }
    if !(b.fragments_total matches Some(t) && i >= t) {
        assert(widened(b.fragments, (i + 1) as nat) =~= b.fragments);
        assert(b.fragments[i] == first_numbered(given, i));
    }
}

/// A fragment of another instruction discards what was collected.
pub proof fn another_instruction_discards_what_was_collected(a: AssemblyView, f: FragmentView)
    requires
        a.current_id != Some(f.id),
    ensures
        a.added(f) == a.restarted(f.id).added(f),
        a.restarted(f.id).holds_nothing_of(f.id),
        a.emptied().holds_nothing_of(f.id),
{
}

} // verus!
