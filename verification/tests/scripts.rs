use unidis::archmap::{arch_map_get, get_arch_map};
use unidis::arch::arches;
use unidis::assemble::format_assembly;
use unidis::bridge::{load_scripts, option_script, output_script, push_escaped, title_script};
use unidis::web::decode_hex_input;

#[test]
fn option_script_names_the_identifier_twice() {
    let s = option_script("ARM::LE::V8");
    assert_eq!(
        s,
        "\n                    const opt1 = document.createElement(\"option\");\n                    opt1.value = \"ARM::LE::V8\";\n                    opt1.text = \"ARM::LE::V8\";\n                    document.getElementById(\"arch\").add(opt1, null);\n                "
    );
}

#[test]
fn load_scripts_follow_the_map() {
    let scripts = load_scripts();
    let m = get_arch_map();
    assert_eq!(scripts.len(), m.len());
    for (s, (key, _)) in scripts.iter().zip(m.iter()) {
        assert_eq!(s, &option_script(key));
    }
}

#[test]
fn title_and_output_scripts() {
    assert_eq!(
        title_script("Disassembly Output"),
        "\n            document.getElementById(\"output_title\").textContent = \"Disassembly Output\";\n        "
    );
    assert_eq!(
        output_script("a\nb", 24),
        "\n                        document.getElementById(\"output\").value = \"a\\nb\";\n                    "
    );
    assert_eq!(
        output_script("", 16),
        "\n                document.getElementById(\"output\").value = \"\";\n            "
    );
    let mut out = vec!['>'];
    push_escaped(&mut out, "x\n\ny");
    assert_eq!(out.iter().collect::<String>(), ">x\\n\\ny");
}

#[test]
fn assembly_output_reads_back_as_input() {
    for bytes in [vec![], vec![0u8], vec![0x48, 0x89, 0xe5], (0..=255u8).collect::<Vec<u8>>()] {
        let shown = format_assembly(&bytes);
        assert_eq!(decode_hex_input(&shown), Ok(bytes.clone()));
    }
}

#[test]
fn every_identifier_selects_its_family() {
    let m = get_arch_map();
    for spec in arches() {
        assert_eq!(arch_map_get(&m, spec.arch_id), Some(spec.arch));
    }
}
