use unidis::assemble::format_assembly;
use unidis::cli::cli_line;
use unidis::disasm::UniDisInstruction;
use unidis::listing::{push_hex_bytes, push_joined, push_web_line};
use unidis::sleigh::{NativeInstr, PcodeOp, Varnode};
use unidis::text::{push_hex, push_repeat, split_string};
use unidis::web::listing_text;

fn instr(address: u64, bytes: Vec<u8>, mnemonic: &str, body: &str) -> UniDisInstruction {
    UniDisInstruction {
        res: NativeInstr {
            mnemonic: mnemonic.to_string(),
            body: body.to_string(),
            address,
            size: bytes.len(),
        },
        pcode: vec![],
        bytes,
    }
}

fn text(v: &[char]) -> String {
    v.iter().collect()
}

#[test]
fn split_keeps_empty_pieces() {
    assert_eq!(split_string("EAX,ESI", ','), vec!["EAX", "ESI"]);
    assert_eq!(split_string("", ','), vec![""]);
    assert_eq!(split_string(",a,", ','), vec!["", "a", ""]);
    assert_eq!(split_string("[RSP + 0x8]", ','), vec!["[RSP + 0x8]"]);
}

#[test]
fn split_then_join_gives_the_text_back() {
    for s in ["a,b,,c", "", ",", "no separator"] {
        let pieces = split_string(s, ',');
        assert_eq!(pieces.join(","), s);
        assert_eq!(pieces.len(), s.matches(',').count() + 1);
    }
}

#[test]
fn hex_is_zero_padded() {
    let mut out = Vec::new();
    push_hex(&mut out, 0x2a, 8, false);
    assert_eq!(text(&out), "0000002a");
    let mut out = Vec::new();
    push_hex(&mut out, 0xdeadbeef1, 8, true);
    assert_eq!(text(&out), "DEADBEEF1");
    let mut out = Vec::new();
    push_hex(&mut out, 0, 2, true);
    assert_eq!(text(&out), "00");
    let mut out = Vec::new();
    push_hex(&mut out, u64::MAX, 0, false);
    assert_eq!(text(&out), format!("{:x}", u64::MAX));
}

#[test]
fn bytes_and_pieces_render() {
    let mut out = Vec::new();
    push_hex_bytes(&mut out, &[0x89, 0x0a], true);
    assert_eq!(text(&out), "89 0A ");
    let mut out = vec!['>'];
    push_joined(&mut out, &vec!["a".to_string(), "b".to_string()], ", ");
    assert_eq!(text(&out), ">a, b");
    let mut out = Vec::new();
    push_repeat(&mut out, ' ', 3);
    assert_eq!(text(&out), "   ");
}

#[test]
fn web_line_matches_the_format() {
    let i = instr(0x10, vec![0x89, 0xf0], "MOV", "EAX,ESI");
    let mut out = Vec::new();
    push_web_line(&mut out, &i, 0x1000, true, true);
    assert_eq!(text(&out), "00001010: 89 F0         MOV    EAX, ESI\n");
    let mut out = Vec::new();
    push_web_line(&mut out, &i, 0, false, false);
    assert_eq!(text(&out), "        MOV    EAX, ESI\n");
    let ret = instr(0x12, vec![0xc3], "RET", "");
    let mut out = Vec::new();
    push_web_line(&mut out, &ret, 0, true, false);
    assert_eq!(text(&out), "00000012:         RET    \n");
}

#[test]
fn web_listing_wraps_the_address() {
    let i = instr(0x10, vec![0x90], "NOP", "");
    let s = listing_text(&vec![i], u64::MAX, true, false);
    assert_eq!(s, "0000000f:         NOP    \n");
}

#[test]
fn web_listing_concatenates_lines() {
    let a = instr(0, vec![0x89, 0xf0], "MOV", "EAX,ESI");
    let b = instr(2, vec![0xc3], "RET", "");
    let s = listing_text(&vec![a, b], 0, true, true);
    assert_eq!(s, "00000000: 89 F0         MOV    EAX, ESI\n00000002: C3         RET    \n");
    assert_eq!(listing_text(&vec![], 5, true, true), "");
}

#[test]
fn assembly_bytes_are_shown_upper_case() {
    assert_eq!(format_assembly(&[0x90]), "90");
    assert_eq!(format_assembly(&[0x48, 0x89, 0xe5]), "48 89 E5");
    assert_eq!(format_assembly(&[]), "");
}

#[test]
fn command_line_pieces() {
    let i = instr(0x10, vec![0x89, 0xf0], "MOV", "EAX,ESI");
    let l = cli_line(&i, 0x400000).unwrap();
    assert_eq!(l.address, "00400010");
    assert_eq!(l.bytes, "89 f0 ");
    assert_eq!(l.pad, 34);
    assert_eq!(l.mnemonic, "MOV");
    assert_eq!(l.mnemonic_pad, 13);
    assert_eq!(l.args, vec!["EAX", "ESI"]);
}

#[test]
fn command_line_refuses_what_does_not_fit() {
    let wide = instr(0, vec![0; 14], "NOP", "");
    assert!(cli_line(&wide, 0).is_none());
    let fits = instr(0, vec![0; 13], "NOP", "");
    assert_eq!(cli_line(&fits, 0).unwrap().pad, 1);
    let long_name = instr(0, vec![0x90], "ABCDEFGHIJKLMNOPQ", "");
    assert!(cli_line(&long_name, 0).is_none());
    let name16 = instr(0, vec![0x90], "ABCDEFGHIJKLMNOP", "");
    assert_eq!(cli_line(&name16, 0).unwrap().mnemonic_pad, 0);
}

#[test]
fn instruction_accessors() {
    let i = instr(0x44, vec![0x89, 0xf0], "MOV", "EAX,ESI");
    assert_eq!(i.to_str(), "MOV EAX,ESI");
    assert_eq!(i.args(), vec!["EAX", "ESI"]);
    assert_eq!(i.address(), 0x44);
    assert_eq!(i.memonic(), "MOV");
    assert_eq!(i.bytes(), &[0x89, 0xf0]);
}

fn vn(space: usize, offset: u64, size: usize) -> Varnode {
    Varnode { space, offset, size }
}

#[test]
fn input_varnodes_cut_repeats_and_outputs() {
    let a = vn(1, 0, 4);
    let b = vn(1, 8, 4);
    let t = vn(2, 0x100, 4);
    let mut i = instr(0, vec![0x01, 0xd8], "ADD", "EAX,EBX");
    i.pcode = vec![
        PcodeOp { inputs: vec![a, a, b], output: Some(t) },
        PcodeOp { inputs: vec![t, b], output: Some(a) },
    ];
    // inputs in order: a a b t b; repeats cut: a b t b; then t and a removed once each
    assert_eq!(i.input_varnodes(), vec![b, b]);
}

#[test]
fn input_varnodes_of_nothing() {
    let i = instr(0, vec![0x90], "NOP", "");
    assert_eq!(i.input_varnodes(), vec![]);
    let mut j = instr(0, vec![0x90], "X", "");
    j.pcode = vec![PcodeOp { inputs: vec![], output: Some(vn(0, 0, 1)) }];
    assert_eq!(j.input_varnodes(), vec![]);
}
