use vstd::prelude::*;
use crate::error::Error;
use crate::pod::{
    Pod, PodView, array_view, hash_view, lemma_hash_view_len, lemma_view_kind, lemma_wf_array,
    lemma_wf_hash,
};
use crate::text::chars_of;

verus! {

/// What a typed target asks of a value during deserialization.
#[derive(PartialEq, Eq, Structural, Clone, Copy, Debug)]
pub enum Request {
    Any,
    Bool,
    I8,
    I16,
    I32,
    I64,
    I128,
    U8,
    U16,
    U32,
    U64,
    U128,
    F32,
    F64,
    Char,
    Str,
    OwnedStr,
    Bytes,
    ByteBuf,
    Optional,
    Unit,
    UnitStruct,
    NewtypeStruct,
    Sequence,
    Tuple,
    TupleStruct,
    Mapping,
    Struct,
    Enum,
    Identifier,
    IgnoredAny,
}

/// How the value is handed to the target's visitor.
#[derive(PartialEq, Eq, Structural, Clone, Copy, Debug)]
pub enum Visit {
    Unit,
    Bool(bool),
    I8(i8),
    I16(i16),
    I32(i32),
    I64(i64),
    I128(i128),
    U8(u8),
    U16(u16),
    U32(u32),
    U64(u64),
    U128(u128),
    /// A stored float, by its bit pattern.
    Float(u64),
    /// A stored integer, to be read as a float.
    IntAsFloat(i64),
    Char(char),
    /// The stored string, borrowed.
    Str,
    /// A copy of the stored string.
    OwnedStr,
    /// The UTF-8 bytes of the stored string, borrowed.
    Bytes,
    /// A copy of the UTF-8 bytes of the stored string.
    ByteBuf,
    /// An absent optional value.
    Absent,
    /// A present optional value: the value itself, deserialized again.
    Present,
    /// A newtype around the value itself.
    Newtype,
    /// The elements of the array, one at a time.
    Elements,
    /// The entries of the mapping, one at a time.
    Entries,
    /// A unit variant named by the stored string.
    NamedVariant,
    /// The variant named by the single key of the mapping, its value as payload.
    KeyedVariant,
}

/// What the bridge does with a request on a value: a visit, or a type error naming what was
/// expected.
pub open spec fn outcome(p: PodView, req: Request) -> Result<Visit, Seq<char>> {
    match req {
        Request::Any => Ok(
            match p {
                PodView::Null => Visit::Unit,
                PodView::Str(_) => Visit::Str,
                PodView::Integer(i) => Visit::I64(i),
                PodView::Float(b) => Visit::Float(b),
                PodView::Boolean(b) => Visit::Bool(b),
                PodView::Array(_) => Visit::Elements,
                PodView::Hash(_) => Visit::Entries,
            },
        ),
        Request::Bool => match p {
            PodView::Boolean(b) => Ok(Visit::Bool(b)),
            _ => Err("boolean"@),
        },
        Request::I8 | Request::I16 | Request::I32 | Request::I64 | Request::I128 | Request::U8
        | Request::U16 | Request::U32 | Request::U64 | Request::U128 => match p {
            PodView::Integer(i) => Ok(int_visit(i, req)),
            _ => Err("integer"@),
        },
        Request::F32 => match p {
            PodView::Float(b) => Ok(Visit::Float(b)),
            PodView::Integer(i) => Ok(Visit::IntAsFloat(i)),
            _ => Err("float or integer"@),
        },
        Request::F64 => match p {
            PodView::Float(b) => Ok(Visit::Float(b)),
            PodView::Integer(i) => Ok(Visit::IntAsFloat(i)),
            _ => Err("float"@),
        },
        Request::Char => match p {
            PodView::Str(s) => if s.len() == 1 {
                Ok(Visit::Char(s[0]))
            } else {
                Err("expected single character"@)
            },
            _ => Err("string"@),
        },
        Request::Str | Request::Identifier => match p {
            PodView::Str(_) => Ok(Visit::Str),
            _ => Err("string"@),
        },
        Request::OwnedStr => match p {
            PodView::Str(_) => Ok(Visit::OwnedStr),
            _ => Err("string"@),
        },
        Request::Bytes => match p {
            PodView::Str(_) => Ok(Visit::Bytes),
            _ => Err("string"@),
        },
        Request::ByteBuf => match p {
            PodView::Str(_) => Ok(Visit::ByteBuf),
            _ => Err("string"@),
        },
        Request::Optional => match p {
            PodView::Null => Ok(Visit::Absent),
            _ => Ok(Visit::Present),
        },
        Request::Unit | Request::UnitStruct => match p {
            PodView::Null => Ok(Visit::Unit),
            _ => Err("null"@),
        },
        Request::NewtypeStruct => Ok(Visit::Newtype),
        Request::Sequence | Request::Tuple | Request::TupleStruct => match p {
            PodView::Array(_) => Ok(Visit::Elements),
            _ => Err("array"@),
        },
        Request::Mapping | Request::Struct => match p {
            PodView::Hash(_) => Ok(Visit::Entries),
            _ => Err("hash map"@),
        },
        Request::Enum => match p {
            PodView::Str(_) => Ok(Visit::NamedVariant),
            PodView::Hash(m) => if m.dom().len() == 1 {
                Ok(Visit::KeyedVariant)
            } else {
                Err("single-key map for enum"@)
            },
            _ => Err("string or single-key map for enum"@),
        },
        Request::IgnoredAny => Ok(Visit::Unit),
    }
}

/// A stored integer converted to the width of an integer request, as `as` converts.
pub open spec fn int_visit(i: i64, req: Request) -> Visit {
    match req {
        Request::I8 => Visit::I8(i as i8),
        Request::I16 => Visit::I16(i as i16),
        Request::I32 => Visit::I32(i as i32),
        Request::I128 => Visit::I128(i as i128),
        Request::U8 => Visit::U8(i as u8),
        Request::U16 => Visit::U16(i as u16),
        Request::U32 => Visit::U32(i as u32),
        Request::U64 => Visit::U64(i as u64),
        Request::U128 => Visit::U128(i as u128),
        _ => Visit::I64(i),
    }
}

/// Whether `r` is what [`outcome`] gives.
pub open spec fn is_outcome(r: Result<Visit, Error>, o: Result<Visit, Seq<char>>) -> bool {
    match (r, o) {
        (Ok(v), Ok(w)) => v == w,
        (Err(Error::TypeError(t)), Err(name)) => t@ == name,
        _ => false,
    }
}

/// A request that matches the kind of the stored value hands the value over unchanged: a string
/// as itself, an integer as a 64-bit integer, a float by its bits, a boolean as itself, an array
/// element by element and a mapping entry by entry. (Narrower integer requests convert as `as`
/// does; see [`int_visit`].)
pub proof fn lemma_matching_request_is_lossless(p: PodView)
    ensures
        p is Str ==> outcome(p, Request::Str) == Ok::<Visit, Seq<char>>(Visit::Str) && outcome(
            p,
            Request::OwnedStr,
        ) == Ok::<Visit, Seq<char>>(Visit::OwnedStr),
        p matches PodView::Integer(i) ==> outcome(p, Request::I64) == Ok::<Visit, Seq<char>>(
            Visit::I64(i),
        ) && outcome(p, Request::Any) == Ok::<Visit, Seq<char>>(Visit::I64(i)),
        p matches PodView::Float(b) ==> outcome(p, Request::F64) == Ok::<Visit, Seq<char>>(
            Visit::Float(b),
        ) && outcome(p, Request::Any) == Ok::<Visit, Seq<char>>(Visit::Float(b)),
        p matches PodView::Boolean(b) ==> outcome(p, Request::Bool) == Ok::<Visit, Seq<char>>(
            Visit::Bool(b),
        ),
        p is Null ==> outcome(p, Request::Unit) == Ok::<Visit, Seq<char>>(Visit::Unit) && outcome(
            p,
            Request::Optional,
        ) == Ok::<Visit, Seq<char>>(Visit::Absent),
        p is Array ==> outcome(p, Request::Sequence) == Ok::<Visit, Seq<char>>(Visit::Elements),
        p is Hash ==> outcome(p, Request::Struct) == Ok::<Visit, Seq<char>>(Visit::Entries)
            && outcome(p, Request::Mapping) == Ok::<Visit, Seq<char>>(Visit::Entries),
        !(p is Null) ==> outcome(p, Request::Optional) == Ok::<Visit, Seq<char>>(Visit::Present),
{
}

/// What a variant asks of its payload.
#[derive(PartialEq, Eq, Structural, Clone, Copy, Debug)]
pub enum VariantKind {
    Unit,
    Newtype,
    Tuple,
    Struct,
}

/// How the payload `p` of a variant named by the key of a single-entry mapping answers `kind`:
/// a unit variant needs `Null`, a tuple variant an array, a struct variant a mapping; a newtype
/// variant takes the payload itself. Otherwise a type error naming what was expected.
pub open spec fn payload_outcome(p: PodView, kind: VariantKind) -> Result<Visit, Seq<char>> {
    match kind {
        VariantKind::Unit => match p {
            PodView::Null => Ok(Visit::Unit),
            _ => Err("null for unit variant"@),
        },
        VariantKind::Newtype => Ok(Visit::Newtype),
        VariantKind::Tuple => match p {
            PodView::Array(_) => Ok(Visit::Elements),
            _ => Err("array for tuple variant"@),
        },
        VariantKind::Struct => match p {
            PodView::Hash(_) => Ok(Visit::Entries),
            _ => Err("hash map for struct variant"@),
        },
    }
}

/// Decides how the payload `p` of a keyed variant answers `kind`.
pub fn variant_payload(p: &Pod, kind: VariantKind) -> (r: Result<Visit, Error>)
    ensures
        is_outcome(r, payload_outcome(p@, kind)),
{
    proof {
        lemma_view_kind(*p);
    }
    match kind {
        VariantKind::Unit => match p {
            Pod::Null => Ok(Visit::Unit),
            _ => Err(Error::type_error("null for unit variant")),
        },
        VariantKind::Newtype => Ok(Visit::Newtype),
        VariantKind::Tuple => match p {
            Pod::Array(_) => Ok(Visit::Elements),
            _ => Err(Error::type_error("array for tuple variant")),
        },
        VariantKind::Struct => match p {
            Pod::Hash(_) => Ok(Visit::Entries),
            _ => Err(Error::type_error("hash map for struct variant")),
        },
    }
}

/// Decides what a variant named by a string gives for `kind`: only a unit variant has no payload
/// to read; the other kinds are not supported.
pub fn named_variant_payload(kind: VariantKind) -> (r: Result<Visit, Error>)
    ensures
        kind == VariantKind::Unit ==> r == Ok::<Visit, Error>(Visit::Unit),
        kind == VariantKind::Newtype ==> (r matches Err(Error::UnsupportedError(t)) && t@
            == "newtype variant not supported for string enum"@),
        kind == VariantKind::Tuple ==> (r matches Err(Error::UnsupportedError(t)) && t@
            == "tuple variant not supported for string enum"@),
        kind == VariantKind::Struct ==> (r matches Err(Error::UnsupportedError(t)) && t@
            == "struct variant not supported for string enum"@),
{
    match kind {
        VariantKind::Unit => Ok(Visit::Unit),
        VariantKind::Newtype => Err(Error::unsupported("newtype variant not supported for string enum")),
        VariantKind::Tuple => Err(Error::unsupported("tuple variant not supported for string enum")),
        VariantKind::Struct => Err(Error::unsupported("struct variant not supported for string enum")),
    }
}

fn int_to(i: i64, req: Request) -> (v: Visit)
    ensures
        v == int_visit(i, req),
{
    match req {
        Request::I8 => Visit::I8(i as i8),
        Request::I16 => Visit::I16(i as i16),
        Request::I32 => Visit::I32(i as i32),
        Request::I128 => Visit::I128(i as i128),
        Request::U8 => Visit::U8(i as u8),
        Request::U16 => Visit::U16(i as u16),
        Request::U32 => Visit::U32(i as u32),
        Request::U64 => Visit::U64(i as u64),
        Request::U128 => Visit::U128(i as u128),
        _ => Visit::I64(i),
    }
}

/// Decides how the value `p` answers the request `req`.
pub fn dispatch(p: &Pod, req: Request) -> (r: Result<Visit, Error>)
    requires
        p.wf(),
    ensures
        is_outcome(r, outcome(p@, req)),
{
    proof {
        lemma_view_kind(*p);
    }
    match req {
        Request::Any => match p {
            Pod::Null => Ok(Visit::Unit),
            Pod::String(_) => Ok(Visit::Str),
            Pod::Integer(i) => Ok(Visit::I64(*i)),
            Pod::Float(b) => Ok(Visit::Float(*b)),
            Pod::Boolean(b) => Ok(Visit::Bool(*b)),
            Pod::Array(_) => Ok(Visit::Elements),
            Pod::Hash(_) => Ok(Visit::Entries),
        },
        Request::Bool => match p {
            Pod::Boolean(b) => Ok(Visit::Bool(*b)),
            _ => Err(Error::type_error("boolean")),
        },
        Request::I8 | Request::I16 | Request::I32 | Request::I64 | Request::I128 | Request::U8
        | Request::U16 | Request::U32 | Request::U64 | Request::U128 => match p {
            Pod::Integer(i) => Ok(int_to(*i, req)),
            _ => Err(Error::type_error("integer")),
        },
        Request::F32 => match p {
            Pod::Float(b) => Ok(Visit::Float(*b)),
            Pod::Integer(i) => Ok(Visit::IntAsFloat(*i)),
            _ => Err(Error::type_error("float or integer")),
        },
        Request::F64 => match p {
            Pod::Float(b) => Ok(Visit::Float(*b)),
            Pod::Integer(i) => Ok(Visit::IntAsFloat(*i)),
            _ => Err(Error::type_error("float")),
        },
        Request::Char => match p {
            Pod::String(s) => {
                let cs = chars_of(s.as_str());
                if cs.len() == 1 {
                    Ok(Visit::Char(cs[0]))
                } else {
                    Err(Error::type_error("expected single character"))
                }
            },
            _ => Err(Error::type_error("string")),
        },
        Request::Str | Request::Identifier => match p {
            Pod::String(_) => Ok(Visit::Str),
            _ => Err(Error::type_error("string")),
        },
        Request::OwnedStr => match p {
            Pod::String(_) => Ok(Visit::OwnedStr),
            _ => Err(Error::type_error("string")),
        },
        Request::Bytes => match p {
            Pod::String(_) => Ok(Visit::Bytes),
            _ => Err(Error::type_error("string")),
        },
        Request::ByteBuf => match p {
            Pod::String(_) => Ok(Visit::ByteBuf),
            _ => Err(Error::type_error("string")),
        },
        Request::Optional => match p {
            Pod::Null => Ok(Visit::Absent),
            _ => Ok(Visit::Present),
        },
        Request::Unit | Request::UnitStruct => match p {
            Pod::Null => Ok(Visit::Unit),
            _ => Err(Error::type_error("null")),
        },
        Request::NewtypeStruct => Ok(Visit::Newtype),
        Request::Sequence | Request::Tuple | Request::TupleStruct => match p {
            Pod::Array(_) => Ok(Visit::Elements),
            _ => Err(Error::type_error("array")),
        },
        Request::Mapping | Request::Struct => match p {
            Pod::Hash(_) => Ok(Visit::Entries),
            _ => Err(Error::type_error("hash map")),
        },
        Request::Enum => match p {
            Pod::String(_) => Ok(Visit::NamedVariant),
            Pod::Hash(v) => {
                proof {
                    lemma_wf_hash(*v);
                    lemma_hash_view_len(*v, v.len() as nat);
                    assert(p@ == PodView::Hash(hash_view(*v, v.len() as nat)));
                }
                if v.len() == 1 {
                    Ok(Visit::KeyedVariant)
                } else {
                    Err(Error::type_error("single-key map for enum"))
                }
            },
            _ => Err(Error::type_error("string or single-key map for enum")),
        },
        Request::IgnoredAny => Ok(Visit::Unit),
    }
}

/// A cursor over the elements of an array of `len` elements.
pub struct PodArrayAccess {
    pub len: usize,
    pub pos: usize,
}

impl PodArrayAccess {
    pub fn new(len: usize) -> (r: PodArrayAccess)
        ensures
            r.len == len,
            r.pos == 0,
    {
        PodArrayAccess { len, pos: 0 }
    }

    /// The index of the next unread element, if any.
    pub fn next_index(&mut self) -> (r: Option<usize>)
        ensures
            final(self).len == old(self).len,
            old(self).pos < old(self).len ==> r == Some(old(self).pos) && final(self).pos == old(
                self,
            ).pos + 1,
            old(self).pos >= old(self).len ==> r is None && final(self).pos == old(self).pos,
    {
        if self.pos < self.len {
            let i = self.pos;
            self.pos = self.pos + 1;
            Some(i)
        } else {
            None
        }
    }

    /// The number of unread elements.
    pub fn size_hint(&self) -> (r: usize)
        ensures
            r == if self.pos <= self.len {
                self.len - self.pos
            } else {
                0
            },
    {
        if self.pos <= self.len {
            self.len - self.pos
        } else {
            0
        }
    }
}

/// A cursor over the entries of a mapping of `len` entries: a key is read before its value.
pub struct PodMapAccess {
    pub len: usize,
    pub pos: usize,
    /// The entry whose key was read and whose value was not.
    pub pending: Option<usize>,
}

impl PodMapAccess {
    pub fn new(len: usize) -> (r: PodMapAccess)
        ensures
            r.len == len,
            r.pos == 0,
            r.pending is None,
    {
        PodMapAccess { len, pos: 0, pending: None }
    }

    /// The index of the next entry, whose value becomes the one to read.
    pub fn next_key(&mut self) -> (r: Option<usize>)
        ensures
            final(self).len == old(self).len,
            old(self).pos < old(self).len ==> r == Some(old(self).pos) && final(self).pos == old(
                self,
            ).pos + 1 && final(self).pending == Some(old(self).pos),
            old(self).pos >= old(self).len ==> r is None && *final(self) == *old(self),
    {
        if self.pos < self.len {
            let i = self.pos;
            self.pos = self.pos + 1;
            self.pending = Some(i);
            Some(i)
        } else {
            None
        }
    }

    /// The index of the entry whose key was just read; an error where no key is waiting for its
    /// value.
    pub fn next_value(&mut self) -> (r: Result<usize, Error>)
        ensures
            final(self).len == old(self).len,
            final(self).pos == old(self).pos,
            final(self).pending is None,
            match old(self).pending {
                Some(i) => r == Ok::<usize, Error>(i),
                None => r matches Err(e) && e is ValueMissingError,
            },
    {
        match self.pending {
            Some(i) => {
                self.pending = None;
                Ok(i)
            },
            None => Err(Error::value_missing()),
        }
    }

    /// The number of unread entries.
    pub fn size_hint(&self) -> (r: usize)
        ensures
            r == if self.pos <= self.len {
                self.len - self.pos
            } else {
                0
            },
    {
        if self.pos <= self.len {
            self.len - self.pos
        } else {
            0
        }
    }
}

/// Deserializes `p` into a `Pod` through the bridge, as a `Pod`-shaped target does: each node is
/// asked for [`Request::Any`], arrays and mappings are walked with their cursors, and the value is
/// rebuilt from the visits. The result is the value itself.
pub fn read_pod(p: &Pod) -> (r: Pod)
    requires
        p.wf(),
    ensures
        r@ == p@,
        r.wf(),
    decreases p, 1nat,
{
    proof {
        lemma_view_kind(*p);
    }
    let visit = dispatch(p, Request::Any);
    match p {
        Pod::Array(items) => {
            proof {
                lemma_wf_array(*items);
                assert(p@ == PodView::Array(array_view(*items, items.len() as nat)));
            }
            if !matches!(visit, Ok(Visit::Elements)) {
                return Pod::new_array();
            }
            read_elements(items)
        },
        Pod::Hash(entries) => {
            proof {
                lemma_wf_hash(*entries);
                assert(p@ == PodView::Hash(hash_view(*entries, entries.len() as nat)));
            }
            if !matches!(visit, Ok(Visit::Entries)) {
                return Pod::new_hash();
            }
            read_entries(entries)
        },
        _ => match visit {
            Ok(Visit::I64(i)) => Pod::Integer(i),
            Ok(Visit::Float(b)) => Pod::Float(b),
            Ok(Visit::Bool(b)) => Pod::Boolean(b),
            Ok(Visit::Str) => match p {
                Pod::String(s) => Pod::String(s.clone()),
                _ => Pod::Null,
            },
            _ => Pod::Null,
        },
    }
}

/// An array rebuilt from the elements of `items`, read one at a time with a cursor.
fn read_elements(items: &Vec<Pod>) -> (r: Pod)
    requires
        forall|j: int| 0 <= j < items.len() ==> #[trigger] items[j].wf(),
    ensures
        r@ == PodView::Array(array_view(*items, items.len() as nat)),
        r.wf(),
    decreases items, 0nat,
{
    let mut out = Pod::new_array();
    let mut cursor = PodArrayAccess::new(items.len());
    while cursor.pos < cursor.len
        invariant
            cursor.len == items.len(),
            cursor.pos <= cursor.len,
            out.wf(),
            out@ == PodView::Array(array_view(*items, cursor.pos as nat)),
            forall|j: int| 0 <= j < items.len() ==> #[trigger] items[j].wf(),
        decreases cursor.len - cursor.pos,
    {
        let i = cursor.next_index().unwrap();
        proof {
            assert(decreases_to!(*items => items[i as int]));
        }
        let x = read_pod(&items[i]);
        let _ = out.push(x);
    }
    out
}

/// A mapping rebuilt from `entries`, read key then value with a cursor.
fn read_entries(entries: &Vec<(String, Pod)>) -> (r: Pod)
    requires
        forall|j: int| 0 <= j < entries.len() ==> #[trigger] entries[j].1.wf(),
    ensures
        r@ == PodView::Hash(hash_view(*entries, entries.len() as nat)),
        r.wf(),
    decreases entries, 0nat,
{
    let mut out = Pod::new_hash();
    let mut cursor = PodMapAccess::new(entries.len());
    while cursor.pos < cursor.len
        invariant
            cursor.len == entries.len(),
            cursor.pos <= cursor.len,
            cursor.pending is None,
            out.wf(),
            out@ == PodView::Hash(hash_view(*entries, cursor.pos as nat)),
            forall|j: int| 0 <= j < entries.len() ==> #[trigger] entries[j].1.wf(),
        decreases cursor.len - cursor.pos,
    {
        let k = cursor.next_key().unwrap();
        let i = match cursor.next_value() {
            Ok(i) => i,
            Err(_) => k,
        };
        proof {
            assert(decreases_to!(*entries => entries[i as int].1));
        }
        let x = read_pod(&entries[i].1);
        out.set(entries[k].0.as_str(), x);
    }
    out
}

} // verus!
