//! Raw memory access for guest code: type tags, pointer chains (a base and
//! offsets applied as successive dereferences), and the checks that decide
//! what a read or a write does. The loads and stores themselves happen
//! outside; the words that loads return come back as arguments.

use vstd::prelude::*;
use crate::text::text_eq;

verus! {

/// The type tags that guest code may name.
#[derive(Debug, Clone, Copy, PartialEq, Eq, Hash, Structural)]
pub enum TypeName {
    I8,
    I16,
    I32,
    I64,
    F32,
    F64,
    Bool,
    String,
}

/// The tag that a guest spelling names, if any.
pub open spec fn type_name_of(s: Seq<char>) -> Option<TypeName> {
    if s == "i8"@ {
        Some(TypeName::I8)
    } else if s == "i16"@ {
        Some(TypeName::I16)
    } else if s == "i32"@ {
        Some(TypeName::I32)
    } else if s == "i64"@ {
        Some(TypeName::I64)
    } else if s == "f32"@ {
        Some(TypeName::F32)
    } else if s == "f64"@ {
        Some(TypeName::F64)
    } else if s == "bool"@ {
        Some(TypeName::Bool)
    } else if s == "string"@ {
        Some(TypeName::String)
    } else {
        None
    }
}

/// The width in bytes of a value of a tag; strings have none.
pub open spec fn width_of(t: TypeName) -> Option<usize> {
    match t {
        TypeName::I8 => Some(1usize),
        TypeName::I16 => Some(2usize),
        TypeName::I32 => Some(4usize),
        TypeName::I64 => Some(8usize),
        TypeName::F32 => Some(4usize),
        TypeName::F64 => Some(8usize),
        TypeName::Bool => Some(1usize),
        TypeName::String => None,
    }
}

impl TypeName {
    pub fn from_str(tag: &str) -> (r: Option<TypeName>)
        ensures
            r == type_name_of(tag@),
    {
        if text_eq(tag, "i8") {
            Some(TypeName::I8)
        } else if text_eq(tag, "i16") {
            Some(TypeName::I16)
        } else if text_eq(tag, "i32") {
            Some(TypeName::I32)
        } else if text_eq(tag, "i64") {
            Some(TypeName::I64)
        } else if text_eq(tag, "f32") {
            Some(TypeName::F32)
        } else if text_eq(tag, "f64") {
            Some(TypeName::F64)
        } else if text_eq(tag, "bool") {
            Some(TypeName::Bool)
        } else if text_eq(tag, "string") {
            Some(TypeName::String)
        } else {
            None
        }
    }

    pub fn width(&self) -> (r: Option<usize>)
        ensures
            r == width_of(*self),
    {
        match self {
            TypeName::I8 => Some(1),
            TypeName::I16 => Some(2),
            TypeName::I32 => Some(4),
            TypeName::I64 => Some(8),
            TypeName::F32 => Some(4),
            TypeName::F64 => Some(8),
            TypeName::Bool => Some(1),
            TypeName::String => None,
        }
    }
}

/// Why a memory access from guest code was refused.
#[derive(Debug, Clone, Copy, PartialEq, Eq, Structural)]
pub enum MemoryError {
    /// The type tag names no known type.
    InvalidType,
    /// Strings cannot be read or written.
    UnsupportedType,
    /// A step of the pointer chain gave an invalid address.
    AddressResolutionFailed,
    /// A number was written without a type tag.
    TypeTagRequired,
    /// The value cannot be stored as the tagged type.
    TypeMismatch,
    /// Values of this kind cannot be stored at all.
    UnsupportedValue,
}

/// The kind of a guest value that is to be written.
#[derive(Debug, Clone, Copy, PartialEq, Eq, Structural)]
pub enum ValueKind {
    Boolean,
    Integer,
    Number,
    Text,
    Other,
}

/// The tag a read of `tag` uses, or why it is refused.
pub open spec fn read_type_of(tag: Seq<char>) -> Result<TypeName, MemoryError> {
    match type_name_of(tag) {
        None => Err(MemoryError::InvalidType),
        Some(TypeName::String) => Err(MemoryError::UnsupportedType),
        Some(t) => Ok(t),
    }
}

/// Whether a value of kind `v` may be stored as `t`.
pub open spec fn storable(v: ValueKind, t: TypeName) -> bool {
    match v {
        ValueKind::Boolean => t == TypeName::Bool,
        ValueKind::Integer => t == TypeName::I8 || t == TypeName::I16 || t == TypeName::I32 || t == TypeName::I64,
        ValueKind::Number => t != TypeName::Bool && t != TypeName::String,
        _ => false,
    }
}

/// The type a write of a value of kind `v` with the optional tag stores, or
/// why it is refused. A tag is checked first; numbers need one, booleans do
/// not.
pub open spec fn write_type_of(v: ValueKind, tag: Option<Seq<char>>) -> Result<TypeName, MemoryError> {
    if tag matches Some(n) && type_name_of(n) is None {
        Err(MemoryError::InvalidType)
    } else {
        match v {
            ValueKind::Text => Err(MemoryError::UnsupportedType),
            ValueKind::Other => Err(MemoryError::UnsupportedValue),
            _ => match tag {
                None => if v == ValueKind::Boolean {
                    Ok(TypeName::Bool)
                } else {
                    Err(MemoryError::TypeTagRequired)
                },
                Some(n) => if storable(v, type_name_of(n).unwrap()) {
                    Ok(type_name_of(n).unwrap())
                } else {
                    Err(MemoryError::TypeMismatch)
                },
            },
        }
    }
}

/// The tag that a read of `tag` uses.
pub fn read_type(tag: &str) -> (r: Result<TypeName, MemoryError>)
    ensures
        r == read_type_of(tag@),
{
    match TypeName::from_str(tag) {
        None => Err(MemoryError::InvalidType),
        Some(TypeName::String) => Err(MemoryError::UnsupportedType),
        Some(t) => Ok(t),
    }
}

/// The type that a write of a value of kind `value` stores.
pub fn write_type(value: ValueKind, tag: Option<&str>) -> (r: Result<TypeName, MemoryError>)
    ensures
        r == write_type_of(value, match tag { Some(n) => Some(n@), None => None }),
{
    let parsed = match tag {
        None => None,
        Some(n) => match TypeName::from_str(n) {
            None => return Err(MemoryError::InvalidType),
            Some(t) => Some(t),
        },
    };
    match value {
        ValueKind::Text => Err(MemoryError::UnsupportedType),
        ValueKind::Other => Err(MemoryError::UnsupportedValue),
        _ => match parsed {
            None => match value {
                ValueKind::Boolean => Ok(TypeName::Bool),
                _ => Err(MemoryError::TypeTagRequired),
            },
            Some(t) => {
                let ok = match value {
                    ValueKind::Boolean => match t {
                        TypeName::Bool => true,
                        _ => false,
                    },
                    ValueKind::Integer => match t {
                        TypeName::I8 | TypeName::I16 | TypeName::I32 | TypeName::I64 => true,
                        _ => false,
                    },
                    _ => match t {
                        TypeName::Bool | TypeName::String => false,
                        _ => true,
                    },
                };
                if ok {
                    Ok(t)
                } else {
                    Err(MemoryError::TypeMismatch)
                }
            },
        },
    }
}

/// An address that may be accessed: any but the null address.
pub fn checked_address(addr: usize) -> (r: Result<usize, MemoryError>)
    ensures
        r == (if addr == 0 {
            Err::<usize, MemoryError>(MemoryError::AddressResolutionFailed)
        } else {
            Ok::<usize, MemoryError>(addr)
        }),
{
    if addr == 0 {
        Err(MemoryError::AddressResolutionFailed)
    } else {
        Ok(addr)
    }
}

/// The address of element `index` of an array of `t` that starts at `addr`.
pub fn element_address(addr: usize, t: TypeName, index: usize) -> (r: Option<usize>)
    ensures
        match width_of(t) {
            None => r is None,
            Some(w) => r == (if addr + w * index <= usize::MAX {
                Some((addr + w * index) as usize)
            } else {
                None::<usize>
            }),
        },
{
    match t.width() {
        None => None,
        Some(w) => match w.checked_mul(index) {
            None => {
                assert(w * index > usize::MAX);
                assert(addr + w * index > usize::MAX) by (nonlinear_arith)
                    requires w * index > usize::MAX, addr >= 0;
                None
            },
            Some(span) => addr.checked_add(span),
        },
    }
}

/// `a + off`, when it is an address.
pub open spec fn add_offset(a: int, off: isize) -> Option<usize> {
    if 0 <= a + off <= usize::MAX {
        Some((a + off) as usize)
    } else {
        None
    }
}

/// The address after applying `offs[0..=i]`: the first offset is added to
/// `base`; each later offset is added to the word loaded from the address
/// before it, `words[j]` being the word loaded after step `j`. A null word
/// or an address out of range ends the chain.
pub open spec fn chain_address(base: usize, offs: Seq<isize>, words: Seq<usize>, i: nat) -> Option<usize>
    decreases i,
{
    if i == 0 {
        add_offset(base as int, offs[0])
    } else {
        match chain_address(base, offs, words, (i - 1) as nat) {
            None => None,
            Some(_) => if words[i - 1] == 0 {
                None
            } else {
                add_offset(words[i - 1] as int, offs[i as int])
            },
        }
    }
}

/// The address that a pointer chain designates: `base` itself without
/// offsets; never the null address.
pub open spec fn resolved_address(base: usize, offs: Seq<isize>, words: Seq<usize>) -> Option<usize> {
    let a = if offs.len() == 0 {
        Some(base)
    } else {
        chain_address(base, offs, words, (offs.len() - 1) as nat)
    };
    match a {
        Some(x) => if x != 0 {
            Some(x)
        } else {
            None
        },
        None => None,
    }
}

/// A broken chain stays broken, whatever is loaded later.
proof fn lemma_chain_stays_broken(base: usize, offs: Seq<isize>, words: Seq<usize>, j: nat, i: nat)
    requires
        j <= i,
        chain_address(base, offs, words, j) is None,
    ensures
        chain_address(base, offs, words, i) is None,
    decreases i - j,
{
    if j < i {
        lemma_chain_stays_broken(base, offs, words, j, (i - 1) as nat);
    }
}

/// The chain depends only on the words loaded before step `i`.
proof fn lemma_chain_prefix(base: usize, offs: Seq<isize>, w1: Seq<usize>, w2: Seq<usize>, i: nat)
    requires
        i <= w1.len(),
        i <= w2.len(),
        w1.take(i as int) == w2.take(i as int),
    ensures
        chain_address(base, offs, w1, i) == chain_address(base, offs, w2, i),
    decreases i,
{
    if i > 0 {
        assert(w1.take((i - 1) as int) =~= w1.take(i as int).take((i - 1) as int));
        assert(w2.take((i - 1) as int) =~= w2.take(i as int).take((i - 1) as int));
        lemma_chain_prefix(base, offs, w1, w2, (i - 1) as nat);
        assert(w1[i - 1] == w1.take(i as int)[i - 1]);
        assert(w2[i - 1] == w2.take(i as int)[i - 1]);
    }
}

/// A reference to memory: a base address and the offsets of a pointer chain.
pub struct RawPtr {
    base: usize,
    offsets: Vec<isize>,
}

impl RawPtr {
    pub closed spec fn base_address(&self) -> usize {
        self.base
    }

    pub closed spec fn offset_chain(&self) -> Seq<isize> {
        self.offsets@
    }

    pub fn new() -> (r: RawPtr)
        ensures
            r.base_address() == 0,
            r.offset_chain() == Seq::<isize>::empty(),
    {
        RawPtr { base: 0, offsets: Vec::new() }
    }

    pub fn set_base(&mut self, base: usize)
        ensures
            final(self).base_address() == base,
            final(self).offset_chain() == old(self).offset_chain(),
    {
        self.base = base;
    }

    pub fn offset(&mut self, offset: isize)
        ensures
            final(self).base_address() == old(self).base_address(),
            final(self).offset_chain() == old(self).offset_chain().push(offset),
    {
        self.offsets.push(offset);
    }

    /// Appends offsets; earlier ones are kept.
    pub fn offsets(&mut self, offsets: &[isize])
        ensures
            final(self).base_address() == old(self).base_address(),
            final(self).offset_chain() == old(self).offset_chain() + offsets@,
    {
        let mut i: usize = 0;
        while i < offsets.len()
            invariant
                i <= offsets@.len(),
                self.base == old(self).base,
                self.offsets@ == old(self).offsets@ + offsets@.take(i as int),
            decreases offsets@.len() - i,
        {
            self.offsets.push(offsets[i]);
            i = i + 1;
            assert(self.offsets@ =~= old(self).offsets@ + offsets@.take(i as int));
        }
        assert(offsets@.take(offsets@.len() as int) =~= offsets@);
    }

    /// Starts resolving the chain.
    pub fn walk(&self) -> (r: AddressWalk)
        ensures
            r.wf(),
            r.base() == self.base_address(),
            r.offset_chain() == self.offset_chain(),
            r.words() == Seq::<usize>::empty(),
    {
        let mut offsets: Vec<isize> = Vec::new();
        let mut i: usize = 0;
        while i < self.offsets.len()
            invariant
                i <= self.offsets@.len(),
                offsets@ == self.offsets@.take(i as int),
            decreases self.offsets@.len() - i,
        {
            offsets.push(self.offsets[i]);
            i = i + 1;
            assert(offsets@ =~= self.offsets@.take(i as int));
        }
        assert(self.offsets@.take(self.offsets@.len() as int) =~= self.offsets@);
        if offsets.len() == 0 {
            AddressWalk { base: self.base, offsets, applied: 0, current: self.base, failed: false, words: Ghost(Seq::empty()) }
        } else {
            let first = offsets[0];
            let (current, failed) = match add_signed(self.base, first) {
                Some(a) => (a, false),
                None => (0, true),
            };
            AddressWalk { base: self.base, offsets, applied: 1, current, failed, words: Ghost(Seq::empty()) }
        }
    }
}

/// `a + off`, when it is an address.
fn add_signed(a: usize, off: isize) -> (r: Option<usize>)
    ensures
        r == add_offset(a as int, off),
{
    if off >= 0 {
        a.checked_add(off as usize)
    } else {
        let back: usize = if off == isize::MIN {
            (isize::MAX as usize) + 1
        } else {
            (-off) as usize
        };
        if back <= a {
            Some(a - back)
        } else {
            None
        }
    }
}

/// The resolution of a pointer chain in progress. The caller loads the word
/// at `pending_load()` and hands it to `supply` until nothing is pending;
/// `address()` then gives the resolved address.
pub struct AddressWalk {
    base: usize,
    offsets: Vec<isize>,
    applied: usize,
    current: usize,
    failed: bool,
    words: Ghost<Seq<usize>>,
}

impl AddressWalk {
    pub closed spec fn base(&self) -> usize {
        self.base
    }

    pub closed spec fn offset_chain(&self) -> Seq<isize> {
        self.offsets@
    }

    /// The words supplied so far.
    pub closed spec fn words(&self) -> Seq<usize> {
        self.words@
    }

    /// The address whose word is needed next, if any: the address that the
    /// chain has reached, while offsets remain to be applied.
    pub open spec fn pending(&self) -> Option<usize> {
        if self.words().len() + 1 < self.offset_chain().len() {
            chain_address(self.base(), self.offset_chain(), self.words(), self.words().len() as nat)
        } else {
            None
        }
    }

    pub closed spec fn wf(&self) -> bool {
        if self.offsets@.len() == 0 {
            self.applied == 0 && self.words@.len() == 0 && self.current == self.base && !self.failed
        } else {
            &&& 1 <= self.applied <= self.offsets@.len()
            &&& self.words@.len() == self.applied - 1
            &&& self.failed <==> chain_address(self.base, self.offsets@, self.words@, (self.applied - 1) as nat) is None
            &&& !self.failed ==> chain_address(self.base, self.offsets@, self.words@, (self.applied - 1) as nat) == Some(self.current)
        }
    }

    /// The address whose word must be loaded next; `None` once the chain is
    /// resolved or broken. This is the address that the chain has reached.
    pub fn pending_load(&self) -> (r: Option<usize>)
        requires
            self.wf(),
        ensures
            r == self.pending(),
    {
        if !self.failed && self.applied < self.offsets.len() {
            Some(self.current)
        } else {
            None
        }
    }

    /// Hands over the word loaded from the pending address.
    pub fn supply(&mut self, word: usize)
        requires
            old(self).wf(),
            old(self).pending() is Some,
        ensures
            final(self).wf(),
            final(self).base() == old(self).base(),
            final(self).offset_chain() == old(self).offset_chain(),
            final(self).words() == old(self).words().push(word),
    {
        let ghost old_words = self.words@;
        let i = self.applied;
        let n = self.offsets.len();
        assert(i < n);
        self.words = Ghost(self.words@.push(word));
        proof {
            assert(old_words.take(i - 1) =~= self.words@.take(i - 1));
            lemma_chain_prefix(self.base, self.offsets@, old_words, self.words@, (i - 1) as nat);
            assert(old_words =~= self.words@.take(i - 1));
        }
        if word == 0 {
            self.failed = true;
        } else {
            match add_signed(word, self.offsets[i]) {
                Some(a) => {
                    self.current = a;
                },
                None => {
                    self.failed = true;
                },
            }
        }
        self.applied = i + 1;
    }

    /// The resolved address, once nothing is pending: `None` when the chain
    /// broke or ends at the null address.
    pub fn address(&self) -> (r: Option<usize>)
        requires
            self.wf(),
            self.pending() is None,
        ensures
            r == resolved_address(self.base(), self.offset_chain(), self.words()),
    {
        proof {
            if self.offsets@.len() > 0 && self.failed {
                lemma_chain_stays_broken(self.base, self.offsets@, self.words@, (self.applied - 1) as nat, (self.offsets@.len() - 1) as nat);
            }
        }
        if self.failed || self.current == 0 {
            None
        } else {
            Some(self.current)
        }
    }
}

} // verus!
