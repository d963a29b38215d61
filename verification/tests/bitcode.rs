use ptx::bitcode::get_bitcode_paths;

#[test]
fn paths_for_a_device_with_feature_suffix() {
    let paths = get_bitcode_paths(&b"gfx1030:sramecc+:xnack-".to_vec());
    assert_eq!(paths.len(), 9);
    assert_eq!(paths[0], b"/opt/rocm/amdgcn/bitcode/opencl.bc".to_vec());
    assert_eq!(paths[1], b"/opt/rocm/amdgcn/bitcode/ocml.bc".to_vec());
    assert_eq!(paths[2], b"/opt/rocm/amdgcn/bitcode/ockl.bc".to_vec());
    assert_eq!(
        paths[3],
        b"/opt/rocm/amdgcn/bitcode/oclc_correctly_rounded_sqrt_off.bc".to_vec()
    );
    assert_eq!(
        paths[4],
        b"/opt/rocm/amdgcn/bitcode/oclc_daz_opt_on.bc".to_vec()
    );
    assert_eq!(
        paths[5],
        b"/opt/rocm/amdgcn/bitcode/oclc_finite_only_off.bc".to_vec()
    );
    assert_eq!(
        paths[6],
        b"/opt/rocm/amdgcn/bitcode/oclc_unsafe_math_off.bc".to_vec()
    );
    assert_eq!(
        paths[7],
        b"/opt/rocm/amdgcn/bitcode/oclc_wavefrontsize64_off.bc".to_vec()
    );
    assert_eq!(
        paths[8],
        b"/opt/rocm/amdgcn/bitcode/oclc_isa_version_1030.bc".to_vec()
    );
}

#[test]
fn paths_for_a_device_without_suffix() {
    let paths = get_bitcode_paths(&b"gfx906".to_vec());
    assert_eq!(paths.len(), 9);
    assert_eq!(
        paths[8],
        b"/opt/rocm/amdgcn/bitcode/oclc_isa_version_906.bc".to_vec()
    );
}
