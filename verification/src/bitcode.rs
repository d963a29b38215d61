//! The device-library bitcode paths of the downstream linker step.
//!
//! Linking a compiled module needs the AMDGPU device libraries: a fixed set
//! of bitcode files plus one file selected by the device's ISA version,
//! taken from the device name with its `gfx` prefix and any `:`-separated
//! feature suffix stripped.

use vstd::prelude::*;

verus! {

/// The directory the AMDGPU device-library bitcode lives in.
pub open spec fn amdgpu_bitcode_dir() -> Seq<u8> {
    seq![47u8, 111u8, 112u8, 116u8, 47u8, 114u8, 111u8, 99u8, 109u8, 47u8, 97u8, 109u8, 100u8, 103u8, 99u8, 110u8, 47u8, 98u8, 105u8, 116u8, 99u8, 111u8, 100u8, 101u8, 47u8]
}

/// The device-independent bitcode file names, in linking order.
pub open spec fn generic_bitcode_files() -> Seq<Seq<u8>> {
    seq![
seq![111u8, 112u8, 101u8, 110u8, 99u8, 108u8, 46u8, 98u8, 99u8],
        seq![111u8, 99u8, 109u8, 108u8, 46u8, 98u8, 99u8],
        seq![111u8, 99u8, 107u8, 108u8, 46u8, 98u8, 99u8],
        seq![111u8, 99u8, 108u8, 99u8, 95u8, 99u8, 111u8, 114u8, 114u8, 101u8, 99u8, 116u8, 108u8, 121u8, 95u8, 114u8, 111u8, 117u8, 110u8, 100u8, 101u8, 100u8, 95u8, 115u8, 113u8, 114u8, 116u8, 95u8, 111u8, 102u8, 102u8, 46u8, 98u8, 99u8],
        seq![111u8, 99u8, 108u8, 99u8, 95u8, 100u8, 97u8, 122u8, 95u8, 111u8, 112u8, 116u8, 95u8, 111u8, 110u8, 46u8, 98u8, 99u8],
        seq![111u8, 99u8, 108u8, 99u8, 95u8, 102u8, 105u8, 110u8, 105u8, 116u8, 101u8, 95u8, 111u8, 110u8, 108u8, 121u8, 95u8, 111u8, 102u8, 102u8, 46u8, 98u8, 99u8],
        seq![111u8, 99u8, 108u8, 99u8, 95u8, 117u8, 110u8, 115u8, 97u8, 102u8, 101u8, 95u8, 109u8, 97u8, 116u8, 104u8, 95u8, 111u8, 102u8, 102u8, 46u8, 98u8, 99u8],
        seq![111u8, 99u8, 108u8, 99u8, 95u8, 119u8, 97u8, 118u8, 101u8, 102u8, 114u8, 111u8, 110u8, 116u8, 115u8, 105u8, 122u8, 101u8, 54u8, 52u8, 95u8, 111u8, 102u8, 102u8, 46u8, 98u8, 99u8]
    ]
}

/// The prefix of the ISA-version-specific bitcode file name.
pub open spec fn isa_version_prefix() -> Seq<u8> {
    seq![111u8, 99u8, 108u8, 99u8, 95u8, 105u8, 115u8, 97u8, 95u8, 118u8, 101u8, 114u8, 115u8, 105u8, 111u8, 110u8, 95u8]
}

/// The bitcode file extension.
pub open spec fn bc_suffix() -> Seq<u8> {
    seq![46u8, 98u8, 99u8]
}

/// The index of the first `:` in the device name at or after `i`, or the
/// length when there is none.
pub open spec fn first_colon_from(s: Seq<u8>, i: int) -> int
    decreases s.len() - i,
{
    if i < 0 || i >= s.len() {
        i
    } else if s[i] == 58 {
        i
    } else {
        first_colon_from(s, i + 1)
    }
}

/// Finds the first `:` at or after `i`.
fn find_colon_from(s: &Vec<u8>, i: usize) -> (r: usize)
    requires
        i <= s@.len(),
    ensures
        r == first_colon_from(s@, i as int),
        i <= r <= s@.len(),
    decreases s@.len() - i,
{
    if i >= s.len() {
        i
    } else if s[i] == 58 {
        i
    } else {
        find_colon_from(s, i + 1)
    }
}

/// The directory prefix as bytes.
fn bitcode_dir_bytes() -> (r: Vec<u8>)
    ensures
        r@ == amdgpu_bitcode_dir(),
{
    let v: Vec<u8> = vec![47u8, 111u8, 112u8, 116u8, 47u8, 114u8, 111u8, 99u8, 109u8, 47u8, 97u8, 109u8, 100u8, 103u8, 99u8, 110u8, 47u8, 98u8, 105u8, 116u8, 99u8, 111u8, 100u8, 101u8, 47u8];
    proof {
        assert(v@ =~= amdgpu_bitcode_dir());
    }
    v
}

/// The `i`-th device-independent file name as bytes.
fn generic_file_bytes(i: usize) -> (r: Vec<u8>)
    requires
        i < 8,
    ensures
        r@ == generic_bitcode_files()[i as int],
{
    let v: Vec<u8> = match i {
        0 => vec![111u8, 112u8, 101u8, 110u8, 99u8, 108u8, 46u8, 98u8, 99u8],
        1 => vec![111u8, 99u8, 109u8, 108u8, 46u8, 98u8, 99u8],
        2 => vec![111u8, 99u8, 107u8, 108u8, 46u8, 98u8, 99u8],
        3 => vec![111u8, 99u8, 108u8, 99u8, 95u8, 99u8, 111u8, 114u8, 114u8, 101u8, 99u8, 116u8, 108u8, 121u8, 95u8, 114u8, 111u8, 117u8, 110u8, 100u8, 101u8, 100u8, 95u8, 115u8, 113u8, 114u8, 116u8, 95u8, 111u8, 102u8, 102u8, 46u8, 98u8, 99u8],
        4 => vec![111u8, 99u8, 108u8, 99u8, 95u8, 100u8, 97u8, 122u8, 95u8, 111u8, 112u8, 116u8, 95u8, 111u8, 110u8, 46u8, 98u8, 99u8],
        5 => vec![111u8, 99u8, 108u8, 99u8, 95u8, 102u8, 105u8, 110u8, 105u8, 116u8, 101u8, 95u8, 111u8, 110u8, 108u8, 121u8, 95u8, 111u8, 102u8, 102u8, 46u8, 98u8, 99u8],
        6 => vec![111u8, 99u8, 108u8, 99u8, 95u8, 117u8, 110u8, 115u8, 97u8, 102u8, 101u8, 95u8, 109u8, 97u8, 116u8, 104u8, 95u8, 111u8, 102u8, 102u8, 46u8, 98u8, 99u8],
        _ => vec![111u8, 99u8, 108u8, 99u8, 95u8, 119u8, 97u8, 118u8, 101u8, 102u8, 114u8, 111u8, 110u8, 116u8, 115u8, 105u8, 122u8, 101u8, 54u8, 52u8, 95u8, 111u8, 102u8, 102u8, 46u8, 98u8, 99u8],
    };
    proof {
        assert(v@ =~= generic_bitcode_files()[i as int]);
    }
    v
}

/// The paths of the device-library bitcode files to link: the eight
/// device-independent files, then `oclc_isa_version_<isa>.bc`, where
/// `<isa>` is the device name without its first three bytes (the `gfx`
/// architecture prefix) and without any `:`-separated feature suffix.
pub fn get_bitcode_paths(device_name: &Vec<u8>) -> (r: Vec<Vec<u8>>)
    requires
        first_colon_from(device_name@, 0) >= 3,
    ensures
        r@.len() == 9,
        forall|i: int|
            0 <= i < 8 ==> (#[trigger] r@[i])@ == amdgpu_bitcode_dir()
                + generic_bitcode_files()[i],
        r@[8]@ == amdgpu_bitcode_dir() + isa_version_prefix() + device_name@.subrange(
            3,
            first_colon_from(device_name@, 0),
        ) + bc_suffix(),
{
    let mut r: Vec<Vec<u8>> = Vec::new();
    let mut i: usize = 0;
    while i < 8
        invariant
            i <= 8,
            r@.len() == i,
            forall|k: int|
                0 <= k < i ==> (#[trigger] r@[k])@ == amdgpu_bitcode_dir()
                    + generic_bitcode_files()[k],
        decreases 8 - i,
    {
        let mut path = bitcode_dir_bytes();
        let file = generic_file_bytes(i);
        crate::util::bytes_extend(&mut path, &file);
        r.push(path);
        i = i + 1;
    }
    let suffix_end = find_colon_from(device_name, 0);
    let mut path = bitcode_dir_bytes();
    let prefix: Vec<u8> = vec![111u8, 99u8, 108u8, 99u8, 95u8, 105u8, 115u8, 97u8, 95u8, 118u8, 101u8, 114u8, 115u8, 105u8, 111u8, 110u8, 95u8];
    proof {
        assert(prefix@ =~= isa_version_prefix());
    }
    crate::util::bytes_extend(&mut path, &prefix);
    let mut j: usize = 3;
    while j < suffix_end
        invariant
            3 <= j <= suffix_end,
            suffix_end <= device_name@.len(),
            path@ == amdgpu_bitcode_dir() + isa_version_prefix() + device_name@.subrange(
                3,
                j as int,
            ),
        decreases suffix_end - j,
    {
        path.push(device_name[j]);
        proof {
            assert(path@ =~= amdgpu_bitcode_dir() + isa_version_prefix()
                + device_name@.subrange(3, j + 1 as int));
        }
        j = j + 1;
    }
    let ext: Vec<u8> = vec![46u8, 98u8, 99u8];
    proof {
        assert(ext@ =~= bc_suffix());
    }
    crate::util::bytes_extend(&mut path, &ext);
    r.push(path);
    proof {
        assert(r@[8]@ == amdgpu_bitcode_dir() + isa_version_prefix() + device_name@.subrange(
            3,
            first_colon_from(device_name@, 0),
        ) + bc_suffix());
    }
    r
}

} // verus!
