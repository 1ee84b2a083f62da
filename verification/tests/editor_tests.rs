use nix_shell_gen::edit::{add_flake_input, AddOutcome, EditError};
use nix_shell_gen::locate::locate_target_set;
use nix_shell_gen::parse::parse_nix;
use nix_shell_gen::plan::has_entry;
use nix_shell_gen::syntax::node_text_vec;

fn bytes(s: &str) -> Vec<u8> {
    s.as_bytes().to_vec()
}

#[test]
fn scenario_insert_new_input() {
    let src = bytes("{ inputs = { nixpkgs.url = \"x\"; }; }");
    let key = bytes("flake-utils");
    let url = bytes("github:numtide/flake-utils");
    let out = match add_flake_input(&src, &key, &url) {
        Ok(AddOutcome::Added(out)) => out,
        other => panic!("expected an insertion, got {:?}", other),
    };
    let out_str = String::from_utf8(out).unwrap();
    assert!(out_str.contains("nixpkgs.url = \"x\";"));
    assert!(out_str.contains("flake-utils.url = \"github:numtide/flake-utils\";"));
    assert_eq!(
        out_str,
        "{ inputs = { nixpkgs.url = \"x\"; \n    flake-utils.url = \"github:numtide/flake-utils\";\n  }; }"
    );
}

#[test]
fn scenario_second_insert_is_noop() {
    let src = bytes("{ inputs = { nixpkgs.url = \"x\"; }; }");
    let key = bytes("flake-utils");
    let url = bytes("github:numtide/flake-utils");
    let first = match add_flake_input(&src, &key, &url) {
        Ok(AddOutcome::Added(out)) => out,
        other => panic!("expected an insertion, got {:?}", other),
    };
    match add_flake_input(&first, &key, &url) {
        Ok(AddOutcome::AlreadyPresent) => {}
        other => panic!("expected a no-op, got {:?}", other),
    }
}

#[test]
fn output_reparses_with_new_entry() {
    let src = bytes("{ inputs = { nixpkgs.url = \"x\"; }; }");
    let key = bytes("flake-utils");
    let url = bytes("github:numtide/flake-utils");
    let out = match add_flake_input(&src, &key, &url) {
        Ok(AddOutcome::Added(out)) => out,
        other => panic!("expected an insertion, got {:?}", other),
    };
    let root = parse_nix(&out).expect("the rewritten text parses");
    let name = bytes("inputs");
    let (_, set) = locate_target_set(&root, &name).expect("the inputs set is still there");
    assert!(has_entry(set, &key));
    assert!(has_entry(set, &bytes("nixpkgs")));
    assert!(!has_entry(set, &bytes("absent")));
}

#[test]
fn losslessness_around_the_splice() {
    let src_str = "{ # keep me\n  inputs = {\n    a.url = \"1\";\n  };\n}\n";
    let src = bytes(src_str);
    let out = match add_flake_input(&src, &bytes("b"), &bytes("2")) {
        Ok(AddOutcome::Added(out)) => out,
        other => panic!("expected an insertion, got {:?}", other),
    };
    let ins = b"\n    b.url = \"2\";\n  ";
    assert_eq!(out.len(), src.len() + ins.len());
    let pos = out
        .windows(ins.len())
        .position(|w| w == ins)
        .expect("the inserted span is in the output");
    assert_eq!(&out[..pos], &src[..pos]);
    assert_eq!(&out[pos + ins.len()..], &src[pos..]);
    let out_str = String::from_utf8(out).unwrap();
    assert!(out_str.contains("# keep me"));
}

#[test]
fn order_of_existing_entries_is_kept() {
    let src = bytes("{ inputs = { a.url = \"1\"; b.url = \"2\"; }; }");
    let out = match add_flake_input(&src, &bytes("c"), &bytes("3")) {
        Ok(AddOutcome::Added(out)) => out,
        other => panic!("expected an insertion, got {:?}", other),
    };
    let out_str = String::from_utf8(out).unwrap();
    let a = out_str.find("a.url").unwrap();
    let b = out_str.find("b.url").unwrap();
    let c = out_str.find("c.url").unwrap();
    assert!(a < b && b < c);
}

#[test]
fn missing_section_is_reported_as_such() {
    let src = bytes("{ outputs = { }; }");
    match add_flake_input(&src, &bytes("a"), &bytes("1")) {
        Err(EditError::SectionNotFound) => {}
        other => panic!("expected a missing section, got {:?}", other),
    }
}

#[test]
fn inputs_bound_to_a_non_set_is_no_section() {
    let src = bytes("{ inputs = 3; }");
    match add_flake_input(&src, &bytes("a"), &bytes("1")) {
        Err(EditError::SectionNotFound) => {}
        other => panic!("expected a missing section, got {:?}", other),
    }
}

#[test]
fn invalid_bytes_are_unusable() {
    let src = vec![0xffu8, 0xfe, 0x7b];
    match add_flake_input(&src, &bytes("a"), &bytes("1")) {
        Err(EditError::ParseUnusable) => {}
        other => panic!("expected unusable input, got {:?}", other),
    }
}

#[test]
fn unterminated_set_is_malformed() {
    let src = bytes("{ inputs = { a.url = \"1\";");
    match add_flake_input(&src, &bytes("b"), &bytes("2")) {
        Err(EditError::MalformedSection) => {}
        other => panic!("expected a malformed section, got {:?}", other),
    }
}

#[test]
fn first_matching_set_in_document_order_wins() {
    let src = bytes("{ nested = { inputs = { a.url = \"1\"; }; }; inputs = { b.url = \"2\"; }; }");
    let out = match add_flake_input(&src, &bytes("c"), &bytes("3")) {
        Ok(AddOutcome::Added(out)) => out,
        other => panic!("expected an insertion, got {:?}", other),
    };
    let out_str = String::from_utf8(out).unwrap();
    assert!(out_str.contains("inputs = { b.url = \"2\"; }"));
    assert!(out_str.find("c.url").unwrap() < out_str.find("b.url").unwrap());
}

#[test]
fn parse_keeps_every_byte() {
    let src = bytes("{ x = 1; # note\n  s = \"t\"; }");
    let root = parse_nix(&src).expect("well-formed text parses");
    assert_eq!(node_text_vec(&root), src);
}

#[test]
fn locate_reports_the_byte_offset_of_the_set() {
    let src = bytes("{ inputs = { }; }");
    let root = parse_nix(&src).expect("well-formed text parses");
    let name = bytes("inputs");
    let (offset, set) = locate_target_set(&root, &name).expect("the inputs set is found");
    assert_eq!(offset, 11);
    assert_eq!(node_text_vec(set), bytes("{ }"));
}

#[test]
fn collision_is_detected_whatever_the_value_shape() {
    let src = bytes("{ inputs = { nixpkgs = { url = \"x\"; }; }; }");
    match add_flake_input(&src, &bytes("nixpkgs"), &bytes("y")) {
        Ok(AddOutcome::AlreadyPresent) => {}
        other => panic!("expected a no-op, got {:?}", other),
    }
}

#[test]
fn a_name_sharing_a_prefix_is_no_collision() {
    let src = bytes("{ inputs = { nixpkgs.url = \"x\"; }; }");
    let out = match add_flake_input(&src, &bytes("nix"), &bytes("y")) {
        Ok(AddOutcome::Added(out)) => out,
        other => panic!("expected an insertion, got {:?}", other),
    };
    let out_str = String::from_utf8(out).unwrap();
    assert!(out_str.contains("nix.url = \"y\";"));
}

#[test]
fn dotted_key_insert_is_idempotent() {
    let src = bytes("{ inputs = { }; }");
    let key = bytes("repo.nix");
    let url = bytes("github:owner/repo.nix");
    let first = match add_flake_input(&src, &key, &url) {
        Ok(AddOutcome::Added(out)) => out,
        other => panic!("expected an insertion, got {:?}", other),
    };
    assert!(String::from_utf8(first.clone())
        .unwrap()
        .contains("repo.nix.url = \"github:owner/repo.nix\";"));
    match add_flake_input(&first, &key, &url) {
        Ok(AddOutcome::AlreadyPresent) => {}
        other => panic!("expected a no-op, got {:?}", other),
    }
}

#[test]
fn dotted_key_collides_with_its_exact_path() {
    let src = bytes("{ inputs = { repo.nix = { url = \"x\"; }; }; }");
    match add_flake_input(&src, &bytes("repo.nix"), &bytes("y")) {
        Ok(AddOutcome::AlreadyPresent) => {}
        other => panic!("expected a no-op, got {:?}", other),
    }
}
