//! Interned opcodes and deopt frames.

use vstd::prelude::*;
#[allow(unused_imports)]
use vstd::string::*;

use crate::model::{count_up, DeoptFrame, FrameArrow};
#[allow(unused_imports)]
use crate::model::{next_count, texts};

verus! {

/// What makes two frame lines render one frame: the host pointer where one was
/// printed, otherwise the arrow and the payload text.
pub enum FrameKey {
    Addr(u64),
    Payload(FrameArrow, Vec<u8>),
}

/// The view of a `FrameKey`.
pub enum FrameKeyModel {
    Addr(u64),
    Payload(FrameArrow, Seq<u8>),
}

impl View for FrameKey {
    type V = FrameKeyModel;

    open spec fn view(&self) -> FrameKeyModel {
        match self {
            FrameKey::Addr(a) => FrameKeyModel::Addr(*a),
            FrameKey::Payload(arrow, text) => FrameKeyModel::Payload(*arrow, text@),
        }
    }
}

/// The opcodes and frames met so far in one compilation.
pub struct Interner {
    pub opcodes: Vec<String>,
    pub frames: Vec<DeoptFrame>,
    /// The key of each frame.
    pub frame_keys: Vec<FrameKey>,
}

/// The view of an `Interner`.
#[verifier::ext_equal]
pub struct InternModel {
    pub opcodes: Seq<Seq<char>>,
    pub frames: Seq<DeoptFrame>,
    pub keys: Seq<FrameKeyModel>,
}

impl View for Interner {
    type V = InternModel;

    open spec fn view(&self) -> InternModel {
        InternModel {
            opcodes: texts(self.opcodes@),
            frames: self.frames@,
            keys: self.frame_keys@.map_values(|k: FrameKey| k@),
        }
    }
}

/// The interner before anything was met.
pub open spec fn nothing_interned() -> InternModel {
    InternModel { opcodes: Seq::empty(), frames: Seq::empty(), keys: Seq::empty() }
}

/// The first place at or after `i` that holds `x`.
pub open spec fn place_from<T>(list: Seq<T>, x: T, i: int) -> Option<int>
    decreases list.len() - i,
{
    if i < 0 || i >= list.len() {
        None
    } else if list[i] == x {
        Some(i)
    } else {
        place_from(list, x, i + 1)
    }
}

/// The first place that holds `x`.
pub open spec fn place<T>(list: Seq<T>, x: T) -> Option<int> {
    place_from(list, x, 0)
}

/// A place found holds the value and lies within the list.
pub proof fn lemma_place<T>(list: Seq<T>, x: T, i: int)
    requires
        0 <= i,
    ensures
        place_from(list, x, i) matches Some(k) ==> i <= k < list.len() && list[k] == x,
        place_from(list, x, i) is None ==> forall|k: int| i <= k < list.len() ==> list[k] != x,
    decreases list.len() - i,
{
    if i < list.len() && list[i] != x {
        lemma_place(list, x, i + 1);
    }
}

impl InternModel {
    /// The id of an opcode.
    pub open spec fn opcode_id(self, name: Seq<char>) -> u32 {
        match place(self.opcodes, name) {
            Some(k) => k as u32,
            None => self.opcodes.len() as u32,
        }
    }

    /// The interner after it met an opcode.
    pub open spec fn with_opcode(self, name: Seq<char>) -> InternModel {
        match place(self.opcodes, name) {
            Some(_) => self,
            None => InternModel { opcodes: self.opcodes.push(name), ..self },
        }
    }

    /// The id of a frame.
    pub open spec fn frame_id(self, key: FrameKeyModel) -> u32 {
        match place(self.keys, key) {
            Some(k) => k as u32,
            None => self.keys.len() as u32,
        }
    }

    /// The interner after it met a frame: a known frame counts one more
    /// occurrence.
    pub open spec fn with_frame(self, frame: DeoptFrame, key: FrameKeyModel) -> InternModel {
        match place(self.keys, key) {
            Some(k) => InternModel {
                frames: self.frames.update(
                    k,
                    DeoptFrame { occurrences: next_count(self.frames[k].occurrences), ..self.frames[k] },
                ),
                ..self
            },
            None => InternModel {
                frames: self.frames.push(frame),
                keys: self.keys.push(key),
                ..self
            },
        }
    }

    /// Every frame has its key.
    pub open spec fn wf(self) -> bool {
        self.frames.len() == self.keys.len()
    }
}

/// An opcode that was met keeps its id whatever is met later.
pub proof fn law_opcode_ids_are_stable(m: InternModel, name: Seq<char>, other: Seq<char>)
    ensures
        m.with_opcode(name).with_opcode(other).opcode_id(name) == m.opcode_id(name),
{
    let a = m.with_opcode(name);
    lemma_place(m.opcodes, name, 0);
    if place(m.opcodes, name) is None {
        lemma_place_push(m.opcodes, name, name, 0);
        lemma_place_push(a.opcodes, other, name, 0);
    } else {
        lemma_place_push(m.opcodes, other, name, 0);
    }
}

proof fn lemma_place_push<T>(list: Seq<T>, added: T, x: T, i: int)
    requires
        0 <= i <= list.len(),
    ensures
        place_from(list.push(added), x, i) == (match place_from(list, x, i) {
            Some(k) => Some(k),
            None => if added == x {
                Some(list.len() as int)
            } else {
                None
            },
        }),
    decreases list.len() - i,
{
    if i < list.len() {
        assert(list.push(added)[i] == list[i]);
        if list[i] != x {
            lemma_place_push(list, added, x, i + 1);
        }
    } else {
        assert(place_from(list.push(added), x, i + 1) is None);
    }
}

fn same_bytes(a: &Vec<u8>, b: &Vec<u8>) -> (yes: bool)
    ensures
        yes == (a@ == b@),
{
    if a.len() != b.len() {
        return false;
    }
    let mut k: usize = 0;
    while k < a.len()
        invariant
            k <= a.len(),
            a.len() == b.len(),
            forall|m: int| 0 <= m < k ==> a@[m] == b@[m],
        decreases a.len() - k,
    {
        if a[k] != b[k] {
            return false;
        }
        k += 1;
    }
    assert(a@ =~= b@);
    true
}

fn same_key(a: &FrameKey, b: &FrameKey) -> (yes: bool)
    ensures
        yes == (a@ == b@),
{
    match (a, b) {
        (FrameKey::Addr(x), FrameKey::Addr(y)) => *x == *y,
        (FrameKey::Payload(p, s), FrameKey::Payload(q, t)) => *p == *q && same_bytes(s, t),
        _ => false,
    }
}

impl Interner {
    /// An interner that has met nothing.
    pub fn new() -> (interner: Interner)
        ensures
            interner@ == nothing_interned(),
            interner@.wf(),
    {
        let interner = Interner { opcodes: Vec::new(), frames: Vec::new(), frame_keys: Vec::new() };
        assert(interner@ =~= nothing_interned());
        interner
    }

    /// The id of an opcode, which is new where it was not met before.
    pub fn opcode(&mut self, name: String) -> (id: u32)
        ensures
            id == old(self)@.opcode_id(name@),
            final(self)@ == old(self)@.with_opcode(name@),
    {
        let mut k: usize = 0;
        while k < self.opcodes.len()
            invariant
                k <= self.opcodes.len(),
                *self == *old(self),
                place(self@.opcodes, name@) == place_from(self@.opcodes, name@, k as int),
            decreases self.opcodes.len() - k,
        {
            assert(self@.opcodes[k as int] == self.opcodes@[k as int]@);
            if self.opcodes[k] == name {
                return k as u32;
            }
            k += 1;
        }
        let id: u32 = self.opcodes.len() as u32;
        let ghost n = name@;
        self.opcodes.push(name);
        assert(texts(self.opcodes@) =~= old(self)@.opcodes.push(n));
        assert(self@ =~= old(self)@.with_opcode(n));
        id
    }

    /// The id of a frame, which is new where its key was not met before.
    pub fn frame(&mut self, frame: DeoptFrame, key: FrameKey) -> (id: u32)
        requires
            old(self)@.wf(),
        ensures
            id == old(self)@.frame_id(key@),
            final(self)@ == old(self)@.with_frame(frame, key@),
            final(self)@.wf(),
    {
        let mut k: usize = 0;
        while k < self.frame_keys.len()
            invariant
                k <= self.frame_keys.len(),
                *self == *old(self),
                self@.wf(),
                place(self@.keys, key@) == place_from(self@.keys, key@, k as int),
            decreases self.frame_keys.len() - k,
        {
            assert(self@.keys[k as int] == self.frame_keys@[k as int]@);
            if same_key(&self.frame_keys[k], &key) {
                let known: DeoptFrame = self.frames[k];
                let counted = DeoptFrame { occurrences: count_up(known.occurrences), ..known };
                self.frames.set(k, counted);
                assert(self@ =~= old(self)@.with_frame(frame, key@));
                return k as u32;
            }
            k += 1;
        }
        let id: u32 = self.frame_keys.len() as u32;
        let ghost key_model = key@;
        self.frames.push(frame);
        self.frame_keys.push(key);
        assert(self@.keys =~= old(self)@.keys.push(key_model));
        assert(self@ =~= old(self)@.with_frame(frame, key_model));
        id
    }
}

} // verus!
