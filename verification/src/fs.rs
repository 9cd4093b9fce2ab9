//! The codec of the files, and their names.
//!
//! A file holds the gzip-compressed bytes of a binary serialization. This
//! module compresses and decompresses, serializes and deserializes the parts
//! of a chain, composes paths, and supplies the default for a file that does
//! not exist. It opens no file.

use libflate::gzip::{Decoder, Encoder};
use std::io::{Read, Write};
use vstd::prelude::*;
use vstd::string::*;

verus! {

/// The name of the file that holds the metadata of a series.
pub const PARENT_NAME: &'static str = "PARENT";

/// `std::io::Error`, in which `libflate` reports a failure. Nothing is known
/// of what one holds.
#[verifier::external_type_specification]
#[verifier::external_body]
pub struct ExIoError(std::io::Error);

/// `bincode::ErrorKind`, in which `bincode` reports a failure. Nothing is
/// known of what one holds.
#[verifier::external_type_specification]
#[verifier::external_body]
pub struct ExBincodeErrorKind(bincode::ErrorKind);

/// Why bytes could not be turned into a value, or a value into bytes.
#[derive(Debug)]
pub enum CodecErr {
    /// Compression failed, or the bytes are no gzip stream.
    Gzip(std::io::Error),
    /// Serialization failed, or the bytes do not have the layout of the value.
    Layout(Box<bincode::ErrorKind>),
    /// The bytes decode to blocks whose ids do not count up from 0.
    BlockIds,
    /// The bytes decode to a slot that is out of this machine's range.
    SlotRange,
}

/// What a gzip stream decompresses to; `None` for bytes that are no gzip
/// stream.
pub uninterp spec fn gzip_decoded(raw: Seq<u8>) -> Option<Seq<u8>>;

/// `libflate::gzip::Encoder`: writes `bin` as a gzip stream. The stream's
/// header holds the time of the call, so the bytes differ from call to call;
/// every one of them decompresses to `bin`.
#[verifier::external_body]
fn gzip_encode(bin: &[u8]) -> (packed: Result<Vec<u8>, std::io::Error>)
    ensures
        packed is Ok ==> gzip_decoded(packed.unwrap()@) == Some(bin@),
{
    let mut encoder = Encoder::new(Vec::new())?;
    encoder.write_all(bin)?;
    encoder.finish().into_result()
}

/// `libflate::gzip::Decoder`: reads the gzip stream `raw` to its end, and
/// fails where `raw` is none or its checksum does not match.
#[verifier::external_body]
fn gzip_decode(raw: &[u8]) -> (bin: Result<Vec<u8>, std::io::Error>)
    ensures
        bin is Ok ==> gzip_decoded(raw@) == Some(bin.unwrap()@),
        bin is Err ==> gzip_decoded(raw@) is None,
{
    let mut decoded = Vec::new();
    Decoder::new(raw)?.read_to_end(&mut decoded)?;
    Ok(decoded)
}

/// Compresses serialized bytes for a file. What comes back decompresses to
/// `bin` again.
pub fn pack(bin: &[u8]) -> (packed: Result<Vec<u8>, CodecErr>)
    ensures
        packed is Ok ==> gzip_decoded(packed.unwrap()@) == Some(bin@),
        packed is Err ==> packed.unwrap_err() is Gzip,
{
    match gzip_encode(bin) {
        Ok(packed) => Ok(packed),
        Err(e) => Err(CodecErr::Gzip(e)),
    }
}

/// Decompresses what a file holds. This succeeds exactly on a gzip stream.
pub fn unpack(raw: &[u8]) -> (bin: Result<Vec<u8>, CodecErr>)
    ensures
        bin is Ok <==> gzip_decoded(raw@) is Some,
        bin is Ok ==> bin.unwrap()@ == gzip_decoded(raw@).unwrap(),
        bin is Err ==> bin.unwrap_err() is Gzip,
{
    match gzip_decode(raw) {
        Ok(bin) => Ok(bin),
        Err(e) => Err(CodecErr::Gzip(e)),
    }
}

/// A block descriptor as it is serialized: id, point count, and the seconds
/// and nanoseconds of the first and of the last write.
pub type BlockRecord = (u64, u16, (u64, u32), (u64, u32));

/// An index entry as it is serialized: key, block position and offset.
pub type SlotRecord = (u64, u64, u64);

/// The parts of a chain as they are serialized: the blocks, the index, and
/// the number of points that a block may hold.
pub type ChainRecord = (Seq<BlockRecord>, Seq<SlotRecord>, u16);

/// What `bincode::deserialize` reads from `bin` as the parts of a chain;
/// `None` for bytes that do not have that layout.
pub uninterp spec fn chain_deserialized(bin: Seq<u8>) -> Option<ChainRecord>;

/// `bincode::serialize`, on the parts of a chain. Whatever bytes it returns,
/// `bincode::deserialize` reads the same parts from them.
#[verifier::external_body]
pub(crate) fn serialize_chain(blocks: &Vec<BlockRecord>, index: &Vec<SlotRecord>, max: u16) -> (bin:
    Result<Vec<u8>, Box<bincode::ErrorKind>>)
    ensures
        bin is Ok ==> chain_deserialized(bin.unwrap()@) == Some((blocks@, index@, max)),
{
    bincode::serialize(&(blocks, index, max))
}

/// `bincode::deserialize`, to the parts of a chain.
#[verifier::external_body]
pub(crate) fn deserialize_chain(bin: &[u8]) -> (parts: Result<
    (Vec<BlockRecord>, Vec<SlotRecord>, u16),
    Box<bincode::ErrorKind>,
>)
    ensures
        parts is Ok ==> chain_deserialized(bin@) == Some(
            (parts.unwrap().0@, parts.unwrap().1@, parts.unwrap().2),
        ),
        parts is Err ==> chain_deserialized(bin@) is None,
{
    bincode::deserialize(bin)
}

/// What a file holds, or the default where there is no file.
pub fn read_or_default<T: Default>(loaded: Option<T>) -> (value: T)
    ensures
        loaded is Some ==> value == loaded.unwrap(),
        loaded is None ==> call_ensures(T::default, (), value),
{
    match loaded {
        Some(value) => value,
        None => T::default(),
    }
}

/// The path of the entry `name` of the directory `dir`, as paths are joined
/// where `/` separates their parts: a `name` that starts at the root stands
/// alone; behind an empty `dir`, or one that ends in `/`, the name follows at
/// once; otherwise a `/` goes between the two.
pub open spec fn joined(dir: Seq<char>, name: Seq<char>) -> Seq<char> {
    if name.len() > 0 && name[0] == '/' {
        name
    } else if dir.len() == 0 || dir.last() == '/' {
        dir + name
    } else {
        dir + seq!['/'] + name
    }
}

/// The path of `subdir` inside the directory `buf`.
pub fn template(buf: &str, subdir: &str) -> (path: String)
    ensures
        path@ == joined(buf@, subdir@),
{
    proof {
        reveal_strlit("/");
    }
    if !subdir.is_empty() && subdir.get_char(0) == '/' {
        return String::from_str(subdir);
    }
    let length = buf.unicode_len();
    let mut path = String::from_str(buf);
    if length > 0 && buf.get_char(length - 1) != '/' {
        path.append("/");
    }
    path.append(subdir);
    path
}

} // verus!
