use gvm::shim::{batch_shim_script, get_shim_paths, powershell_shim_script, unix_shim_script};
use gvm::versions::{sort_versions, version_le};

fn s(text: &str) -> String {
    text.to_string()
}

#[test]
fn shim_paths_unix() {
    let paths = get_shim_paths(&s("/home/u/.bvm/shims"), &s("fmt"), false);
    assert_eq!(paths, vec![s("/home/u/.bvm/shims/fmt")]);
}

#[test]
fn shim_paths_windows() {
    let paths = get_shim_paths(&s("C:\\bvm\\shims"), &s("fmt"), true);
    assert_eq!(paths, vec![s("C:\\bvm\\shims\\fmt.bat"), s("C:\\bvm\\shims\\fmt.ps1")]);
}

#[test]
fn unix_shim_text() {
    let text = unix_shim_script(&s("/opt/bvm"), &s("fmt"), &s("/bins/fmt"));
    assert_eq!(
        text,
        "#!/bin/sh\nif [ -z \"$BVM_INSTALL_DIR\" ]; then\n  BVM_INSTALL_DIR=\"/opt/bvm\"\nfi\n\n. $BVM_INSTALL_DIR/bin/bvm\nbvm exec-command fmt \"/bins/fmt\" \"$@\"\n"
    );
}

#[test]
fn windows_shim_texts() {
    let bat = batch_shim_script(&s("C:\\bvm\\bvm.cmd"), &s("fmt"), &s("C:\\bins\\fmt.exe"));
    assert_eq!(bat, "@ECHO OFF\n\"C:\\bvm\\bvm.cmd\" exec-command fmt \"C:\\bins\\fmt.exe\" %*\n");
    let ps1 = powershell_shim_script(&s("C:\\bvm\\bvm.ps1"), &s("fmt"), &s("C:\\bins\\fmt.exe"));
    assert_eq!(
        ps1,
        "#!/usr/bin/env pwsh\n. \"C:\\bvm\\bvm.ps1\" exec-command fmt \"C:\\bins\\fmt.exe\" @args\n"
    );
}

#[test]
fn version_order_is_byte_order() {
    assert!(version_le(&s("1.0"), &s("1.5")));
    assert!(!version_le(&s("2.0"), &s("1.5")));
    assert!(version_le(&s("1"), &s("1.0")));
    assert!(version_le(&s("1.0"), &s("1.0")));
    assert!(version_le(&s("10.0"), &s("9.0")));
}

#[test]
fn sort_versions_ascending() {
    let sorted = sort_versions(vec![s("2.0"), s("1.0"), s("1.5"), s("1.0")]);
    assert_eq!(sorted, vec![s("1.0"), s("1.0"), s("1.5"), s("2.0")]);
    assert!(sort_versions(vec![]).is_empty());
}
