//! Tensor files in the safetensors format.
use crate::bytes;
use crate::header;
use vstd::prelude::*;

verus! {

/// A tensor as it stands in a file.
pub struct Tensor {
    pub name: String,
    /// Name of the element type, such as `F32`.
    pub dtype: String,
    pub data: Vec<u8>,
}

/// Element type and bytes of each tensor, by name.
pub open spec fn contents(list: Seq<Tensor>) -> Map<Seq<char>, (Seq<char>, Seq<u8>)>
    decreases list.len(),
{
    if list.len() == 0 {
        Map::empty()
    } else {
        let last = list.last();
        contents(list.drop_last()).insert(last.name@, (last.dtype@, last.data@))
    }
}

/// No two tensors share a name.
pub open spec fn distinct(list: Seq<Tensor>) -> bool {
    forall|i: int, j: int|
        0 <= i < j < list.len() ==> (#[trigger] list[i]).name@ != (#[trigger] list[j]).name@
}

/// What the safetensors format makes of a file where sizes have `bits` bits: its tensors, or
/// `None` if it is no such file.
pub uninterp spec fn parsed(file: Seq<u8>, bits: nat) -> Option<
    Map<Seq<char>, (Seq<char>, Seq<u8>)>,
>;

#[verifier::external_type_specification]
#[verifier::external_body]
pub struct ExSafeTensorError(safetensors::SafeTensorError);

/// The length of the header that a file announces.
pub open spec fn header_len(file: Seq<u8>) -> nat {
    bytes::u32_at(file, 0) as nat + 0x1_0000_0000 * bytes::u32_at(file, 4) as nat
}

/// The header of a file, empty where the file is shorter than it announces.
pub open spec fn header(file: Seq<u8>) -> Seq<u8> {
    if 8 + header_len(file) <= file.len() {
        file.subrange(8, 8 + header_len(file) as int)
    } else {
        Seq::empty()
    }
}

/// Whether a tensor of the file declares that its data end so near the end of the address space
/// that the length of the header cannot be added. No file has that much data.
pub open spec fn oversized(file: Seq<u8>) -> bool {
    8 + header_len(file) <= file.len() && header::declares_far_data(
        header(file),
        (usize::MAX - 8 - header_len(file)) as usize,
    )
}

/// The tensors of a file on this machine, or `None` if it has none: it is not in the safetensors
/// format, or declares more data than there can be.
pub open spec fn tensors_in(file: Seq<u8>) -> Option<Map<Seq<char>, (Seq<char>, Seq<u8>)>> {
    if oversized(file) {
        None
    } else {
        parsed(file, usize::BITS as nat)
    }
}

/// A file starts with the length of its header in eight bytes, the lowest first. It is oversized
/// if and only if the header that follows them is there and declares far data.
pub proof fn law_headers_follow_their_length(file: Seq<u8>, len: nat)
    requires
        file.len() >= 8,
        len == file[0] + 0x100 * file[1] + 0x1_0000 * file[2] + 0x100_0000 * file[3]
            + 0x1_0000_0000 * file[4] + 0x100_0000_0000 * file[5] + 0x1_0000_0000_0000 * file[6]
            + 0x100_0000_0000_0000 * file[7],
    ensures
        header_len(file) == len,
        oversized(file) <==> 8 + len <= file.len() && header::declares_far_data(
            file.subrange(8, 8 + len as int),
            (usize::MAX - 8 - len) as usize,
        ),
        tensors_in(file) is Some ==> !oversized(file),
        !oversized(file) ==> tensors_in(file) == parsed(file, usize::BITS as nat),
{
}

/// A file of fewer than eight bytes is not oversized.
pub proof fn law_short_files_are_not_oversized(file: Seq<u8>)
    requires
        file.len() < 8,
    ensures
        !oversized(file),
{
}

/// Whether a tensor of the file declares that its data end so near the end of the address space
/// that the length of the header cannot be added.
pub fn is_oversized(file: &[u8]) -> (r: bool)
    ensures
        r == oversized(file@),
{
    if file.len() < 8 {
        return false;
    }
    let low = bytes::get_u32(file, 0);
    let high = bytes::get_u32(file, 4);
    let announced: u64 = low as u64 + 0x1_0000_0000 * high as u64;
    if announced > (file.len() - 8) as u64 {
        return false;
    }
    let len = announced as usize;
    let (_, rest) = file.split_at(8);
    let (text, _) = rest.split_at(len);
    assert(text@ =~= header(file@));
    header::has_far_data(text, usize::MAX - 8 - len)
}

/// Calls `safetensors::SafeTensors::deserialize` and lists what `SafeTensors::tensors` gives,
/// each with the name that `TensorView::dtype` prints and a copy of `TensorView::data`.
///
/// The contract claims that whether a file is accepted, and which tensors it then holds, is a
/// function of its bytes and of the width of `usize`, in which sizes are computed, and that no
/// name occurs twice. It claims nothing of the order of the list, which follows a hash map that
/// each process seeds, nor of the error. Left out are files with a tensor whose data are declared
/// to end near the end of the address space: `deserialize` adds the end of the data to the length
/// of the header without a check for overflow. It refuses a tensor of more than an eighth of the
/// address space and data that do not start at zero and follow one another, so the sum overflows
/// only where a tensor also declares that its data start in the upper half.
#[verifier::external_body]
pub(crate) fn deserialize(file: &[u8]) -> (r: Result<Vec<Tensor>, safetensors::SafeTensorError>)
    requires
        !oversized(file@),
    ensures
        match r {
            Ok(list) => distinct(list@) && parsed(file@, usize::BITS as nat) == Some(
                contents(list@),
            ),
            Err(_) => parsed(file@, usize::BITS as nat) is None,
        },
{
    let tensors = safetensors::SafeTensors::deserialize(file)?.tensors();
    Ok(tensors.into_iter().map(|(name, view)| {
        let dtype = format!("{:?}", view.dtype());
        Tensor { name, dtype, data: view.data().to_vec() }
    }).collect())
}

} // verus!
