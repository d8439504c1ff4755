//! Names as the storage engine wants them: bounded, NUL-terminated byte strings.

use vstd::prelude::*;
use vstd::slice::slice_subrange;
use vstd::utf8::{decode_utf8, encode_utf8, valid_utf8};
use crate::error::Error;

verus! {

/// The longest name, in bytes, that the storage engine accepts.
pub const NC_MAX_NAME: usize = 256;

/// The bytes of a name are acceptable when there are at most [`NC_MAX_NAME`]
/// of them and none is NUL, which would end the name early.
pub open spec fn valid_name_bytes(bytes: Seq<u8>) -> bool {
    &&& bytes.len() <= NC_MAX_NAME
    &&& forall|i: int| 0 <= i < bytes.len() ==> bytes[i] != 0
}

/// A name is acceptable when its UTF-8 encoding is.
pub open spec fn valid_name(name: Seq<char>) -> bool {
    valid_name_bytes(encode_utf8(name))
}

/// The buffer handed to the engine for a name: its bytes, then NUL bytes up
/// to a length of `NC_MAX_NAME + 1`.
pub open spec fn padded(bytes: Seq<u8>) -> Seq<u8>
    recommends
        bytes.len() <= NC_MAX_NAME,
{
    Seq::new((NC_MAX_NAME + 1) as nat, |i: int| if i < bytes.len() { bytes[i] } else { 0u8 })
}

/// Position of the first NUL byte at or after `from`, or the length of the
/// buffer if there is none.
pub open spec fn nul_from(bytes: Seq<u8>, from: int) -> int
    decreases bytes.len() - from,
{
    if from < 0 || from >= bytes.len() {
        bytes.len() as int
    } else if bytes[from] == 0 {
        from
    } else {
        nul_from(bytes, from + 1)
    }
}

/// Position of the first NUL byte of a buffer, or its length if it has none.
pub open spec fn first_nul(bytes: Seq<u8>) -> int {
    nul_from(bytes, 0)
}

/// The bytes of a buffer that come before its first NUL byte.
pub open spec fn until_nul(bytes: Seq<u8>) -> Seq<u8> {
    bytes.take(first_nul(bytes))
}

/// The text that `String::from_utf8_lossy` makes of a byte sequence.
pub uninterp spec fn lossy_text(bytes: Seq<u8>) -> Seq<char>;

/// The name that a buffer filled by the engine holds: the text of the bytes
/// before the first NUL.
pub open spec fn buffer_name(bytes: Seq<u8>) -> Seq<char> {
    lossy_text(until_nul(bytes))
}

/// `nul_from` finds the first NUL at or after `from`: it lies within the
/// buffer or at its end, no byte between `from` and it is NUL, and the byte
/// at it is NUL unless it is the end.
pub proof fn lemma_nul_from(bytes: Seq<u8>, from: int)
    requires
        0 <= from <= bytes.len(),
    ensures
        from <= nul_from(bytes, from) <= bytes.len(),
        forall|i: int| from <= i < nul_from(bytes, from) ==> bytes[i] != 0,
        nul_from(bytes, from) < bytes.len() ==> bytes[nul_from(bytes, from)] == 0,
    decreases bytes.len() - from,
{
    if from < bytes.len() && bytes[from] != 0 {
        lemma_nul_from(bytes, from + 1);
    }
}

/// A position with a NUL byte and none before it is the first NUL.
pub proof fn lemma_first_nul_is(bytes: Seq<u8>, pos: int)
    requires
        0 <= pos <= bytes.len(),
        forall|i: int| 0 <= i < pos ==> bytes[i] != 0,
        pos < bytes.len() ==> bytes[pos] == 0,
    ensures
        first_nul(bytes) == pos,
{
    lemma_nul_from(bytes, 0);
}

/// Position of the first of `names`, at or after `from`, that equals `name`;
/// the number of names if there is none.
pub open spec fn name_from(names: Seq<Seq<char>>, name: Seq<char>, from: int) -> int
    decreases names.len() - from,
{
    if from < 0 || from >= names.len() {
        names.len() as int
    } else if names[from] == name {
        from
    } else {
        name_from(names, name, from + 1)
    }
}

/// Position of the first of `names` that equals `name`; the number of names
/// if there is none.
pub open spec fn name_index(names: Seq<Seq<char>>, name: Seq<char>) -> int {
    name_from(names, name, 0)
}

/// True when no name occurs twice.
pub open spec fn names_distinct(names: Seq<Seq<char>>) -> bool {
    forall|i: int, j: int| 0 <= i < j < names.len() ==> names[i] != names[j]
}

/// `name_from` finds the first match at or after `from`.
pub proof fn lemma_name_from(names: Seq<Seq<char>>, name: Seq<char>, from: int)
    requires
        0 <= from <= names.len(),
    ensures
        from <= name_from(names, name, from) <= names.len(),
        forall|i: int| from <= i < name_from(names, name, from) ==> names[i] != name,
        name_from(names, name, from) < names.len() ==> names[name_from(names, name, from)]
            == name,
    decreases names.len() - from,
{
    if from < names.len() && names[from] != name {
        lemma_name_from(names, name, from + 1);
    }
}

/// `name_index` is within the names or at their end; before it no name
/// matches, and at it the name matches unless it is the end.
pub proof fn lemma_name_index(names: Seq<Seq<char>>, name: Seq<char>)
    ensures
        0 <= name_index(names, name) <= names.len(),
        forall|i: int| 0 <= i < name_index(names, name) ==> names[i] != name,
        name_index(names, name) < names.len() ==> names[name_index(names, name)] == name,
{
    lemma_name_from(names, name, 0);
}

/// A position that matches, with no match before it, is the `name_index`.
pub proof fn lemma_name_index_is(names: Seq<Seq<char>>, name: Seq<char>, pos: int)
    requires
        0 <= pos <= names.len(),
        forall|i: int| 0 <= i < pos ==> names[i] != name,
        pos < names.len() ==> names[pos] == name,
    ensures
        name_index(names, name) == pos,
{
    lemma_name_from(names, name, 0);
}

/// Appending a name leaves the position of every name found before, and
/// puts the new name at the end if it was not found.
pub proof fn lemma_name_index_push(names: Seq<Seq<char>>, added: Seq<char>, name: Seq<char>)
    ensures
        name_index(names, name) < names.len() ==> name_index(names.push(added), name)
            == name_index(names, name),
        name_index(names, name) == names.len() && added == name ==> name_index(
            names.push(added),
            name,
        ) == names.len(),
        name_index(names, name) == names.len() && added != name ==> name_index(
            names.push(added),
            name,
        ) == names.len() + 1,
{
    lemma_name_index(names, name);
    let pos = name_index(names, name);
    let longer = names.push(added);
    if pos < names.len() {
        lemma_name_index_is(longer, name, pos);
    } else if added == name {
        lemma_name_index_is(longer, name, names.len() as int);
    } else {
        lemma_name_index_is(longer, name, names.len() as int + 1);
    }
}

/// Distinct names stay distinct when a name is added that was not among
/// them.
pub proof fn lemma_push_keeps_distinct(names: Seq<Seq<char>>, added: Seq<char>)
    requires
        names_distinct(names),
        name_index(names, added) == names.len(),
    ensures
        names_distinct(names.push(added)),
{
    lemma_name_index(names, added);
}

/// Something that is found by its name.
pub trait Named {
    /// The name, as a sequence of characters.
    spec fn spec_name(&self) -> Seq<char>;

    /// The name.
    fn name_ref(&self) -> (r: &String)
        ensures
            r@ == self.spec_name(),
    ;
}

/// The names of a sequence of items, in order.
pub open spec fn names_of<T: Named>(items: Seq<T>) -> Seq<Seq<char>> {
    items.map_values(|t: T| t.spec_name())
}

/// Finds the first item of the given name: its position, or `None` if no
/// item has the name.
pub fn position_of<T: Named>(items: &Vec<T>, name: &str) -> (r: Option<usize>)
    ensures
        match r {
            Some(at) => at < items@.len() && at == name_index(names_of(items@), name@),
            None => name_index(names_of(items@), name@) == items@.len(),
        },
{
    let wanted = name.to_owned();
    let mut i: usize = 0;
    while i < items.len()
        invariant
            i <= items@.len(),
            wanted@ == name@,
            forall|k: int| 0 <= k < i ==> names_of(items@)[k] != name@,
        decreases items@.len() - i,
    {
        if *items[i].name_ref() == wanted {
            proof {
                lemma_name_index_is(names_of(items@), name@, i as int);
            }
            return Some(i);
        }
        i += 1;
    }
    proof {
        lemma_name_index_is(names_of(items@), name@, i as int);
    }
    None
}

/// Tells whether a name is one that the engine can be asked about.
pub fn is_valid_name(name: &str) -> (ok: bool)
    ensures
        ok == valid_name(name@),
{
    let bytes = name.as_bytes();
    if bytes.len() > NC_MAX_NAME {
        return false;
    }
    let mut i: usize = 0;
    while i < bytes.len()
        invariant
            i <= bytes@.len(),
            bytes@ == encode_utf8(name@),
            bytes@.len() <= NC_MAX_NAME,
            forall|k: int| 0 <= k < i ==> bytes@[k] != 0,
        decreases bytes@.len() - i,
    {
        if bytes[i] == 0 {
            return false;
        }
        i += 1;
    }
    true
}

/// Lays a name out as the engine wants it: the bytes of the name in a buffer
/// of `NC_MAX_NAME + 1` bytes, the rest of it NUL.
///
/// A name that is too long, or holds a NUL, is refused with
/// [`Error::InvalidName`], and only such a name.
pub fn short_name_to_bytes(name: &str) -> (r: Result<Vec<u8>, Error>)
    ensures
        valid_name(name@) ==> r.is_ok() && r.unwrap()@ == padded(encode_utf8(name@)),
        !valid_name(name@) ==> r == Err::<Vec<u8>, Error>(Error::InvalidName),
{
    if !is_valid_name(name) {
        return Err(Error::InvalidName);
    }
    let bytes = name.as_bytes();
    let mut buffer: Vec<u8> = Vec::new();
    let mut i: usize = 0;
    while i < NC_MAX_NAME + 1
        invariant
            i <= NC_MAX_NAME + 1,
            bytes@ == encode_utf8(name@),
            bytes@.len() <= NC_MAX_NAME,
            buffer@.len() == i,
            forall|k: int| 0 <= k < i ==> buffer@[k] == padded(bytes@)[k],
        decreases NC_MAX_NAME + 1 - i,
    {
        if i < bytes.len() {
            buffer.push(bytes[i]);
        } else {
            buffer.push(0);
        }
        i += 1;
    }
    assert(buffer@ =~= padded(bytes@));
    Ok(buffer)
}

/// Finds the first NUL byte of a buffer; the length of the buffer if it has
/// none.
pub fn zero_position(buffer: &[u8]) -> (pos: usize)
    ensures
        pos == first_nul(buffer@),
        pos <= buffer@.len(),
        forall|i: int| 0 <= i < pos ==> buffer@[i] != 0,
        pos < buffer@.len() ==> buffer@[pos as int] == 0,
{
    let mut i: usize = 0;
    while i < buffer.len()
        invariant
            i <= buffer@.len(),
            forall|k: int| 0 <= k < i ==> buffer@[k] != 0,
        decreases buffer@.len() - i,
    {
        if buffer[i] == 0 {
            proof {
                lemma_first_nul_is(buffer@, i as int);
            }
            return i;
        }
        i += 1;
    }
    proof {
        lemma_first_nul_is(buffer@, i as int);
    }
    i
}

/// `String::from_utf8_lossy`, with the result made an owned `String`.
///
/// Claimed of it: the text depends on the bytes alone, and where the bytes
/// are valid UTF-8 it is the text that they encode. What it makes of other
/// bytes is left to the standard library.
#[verifier::external_body]
fn utf8_lossy(bytes: &[u8]) -> (text: String)
    ensures
        text@ == lossy_text(bytes@),
        valid_utf8(bytes@) ==> text@ == decode_utf8(bytes@),
{
    String::from_utf8_lossy(bytes).into_owned()
}

/// Reads the name out of a buffer that the engine has filled: the text of
/// the bytes before the first NUL, or of all of them if there is none.
pub fn name_from_buffer(buffer: &[u8]) -> (name: String)
    ensures
        name@ == buffer_name(buffer@),
        valid_utf8(until_nul(buffer@)) ==> name@ == decode_utf8(until_nul(buffer@)),
{
    let end = zero_position(buffer);
    let head = slice_subrange(buffer, 0, end);
    assert(head@ =~= until_nul(buffer@));
    utf8_lossy(head)
}

/// A name that went to the engine comes back as it was: reading the buffer
/// that `short_name_to_bytes` lays out for an acceptable name gives that name.
pub proof fn lemma_name_round_trip(name: Seq<char>)
    requires
        valid_name(name),
    ensures
        until_nul(padded(encode_utf8(name))) == encode_utf8(name),
        valid_utf8(until_nul(padded(encode_utf8(name)))),
        decode_utf8(until_nul(padded(encode_utf8(name)))) == name,
{
    broadcast use vstd::utf8::encode_utf8_valid_utf8, vstd::utf8::encode_utf8_decode_utf8;

    let bytes = encode_utf8(name);
    let buffer = padded(bytes);
    lemma_first_nul_is(buffer, bytes.len() as int);
    assert(until_nul(buffer) =~= bytes);
}

} // verus!
