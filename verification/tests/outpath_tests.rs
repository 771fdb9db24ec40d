use sig_subtract::outpath::{base_name, dec_u32, output_dir, output_path};

fn bytes(s: &str) -> Vec<u8> {
    s.as_bytes().to_vec()
}

fn text(v: Vec<u8>) -> String {
    String::from_utf8(v).unwrap()
}

#[test]
fn decimal_rendering_is_exact() {
    assert_eq!(text(dec_u32(0)), "0");
    assert_eq!(text(dec_u32(31)), "31");
    assert_eq!(text(dec_u32(255)), "255");
    assert_eq!(text(dec_u32(1000)), "1000");
    assert_eq!(text(dec_u32(u32::MAX)), "4294967295");
}

#[test]
fn output_dir_is_root_then_ksize() {
    assert_eq!(text(output_dir(&bytes("outputs"), 31)), "outputs/31");
    assert_eq!(text(output_dir(&bytes("/tmp/out"), 21)), "/tmp/out/21");
}

#[test]
fn output_path_keeps_the_target_file_name() {
    let dir = output_dir(&bytes("outputs"), 31);
    let path = output_path(&dir, &bytes("sample.sig"));
    assert_eq!(text(path), "outputs/31/sample.sig");
}

#[test]
fn base_name_is_the_part_after_the_last_separator() {
    assert_eq!(text(base_name(&bytes("/data/sigs/sample.sig"))), "sample.sig");
    assert_eq!(text(base_name(&bytes("sample.sig"))), "sample.sig");
    assert_eq!(text(base_name(&bytes("a/b/"))), "");
    assert_eq!(text(base_name(&bytes(""))), "");
}

#[test]
fn full_layout_composes() {
    let dir = output_dir(&bytes("out"), 4);
    let name = base_name(&bytes("inputs/t1.sig"));
    assert_eq!(text(output_path(&dir, &name)), "out/4/t1.sig");
}
