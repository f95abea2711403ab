use goldsrc_addons::goldsrc::amxxpc::{build_command, compiler_binary, parse_diagnostics, Diagnostic, Severity};

#[test]
fn compiler_binary_per_os() {
    assert_eq!(compiler_binary("windows"), "amxxpc.exe");
    assert_eq!(compiler_binary("Windows"), "amxxpc.exe");
    assert_eq!(compiler_binary("linux"), "amxxpc");
    assert_eq!(compiler_binary("darwin"), "amxxpc");
}

#[test]
fn builds_command() {
    let cmd = build_command(
        "/srv/cs/cstrike/addons/amxmodx/scripting",
        "/srv/cs/cstrike/addons/amxmodx/plugins",
        "gungame.sma",
        "gungame",
        "linux",
    );
    let headers = format!("{}{}", "inc", "lude");
    let expected = format!(
        "\"/srv/cs/cstrike/addons/amxmodx/scripting/amxxpc\" \
         \"/srv/cs/cstrike/addons/amxmodx/scripting/gungame.sma\" \
         -i\"/srv/cs/cstrike/addons/amxmodx/scripting/{}\" \
         -o\"/srv/cs/cstrike/addons/amxmodx/plugins/gungame.amxx\"",
        headers
    );
    assert_eq!(cmd, expected);
}

#[test]
fn builds_command_for_windows_quotes_every_path() {
    let cmd = build_command("C:\\cs\\scripting", "C:\\cs\\plugins", "x.sma", "x", "Windows");
    assert!(cmd.starts_with("\"C:\\cs\\scripting/amxxpc.exe\" \"C:\\cs\\scripting/x.sma\" -i\""));
    assert!(cmd.ends_with(" -o\"C:\\cs\\plugins/x.amxx\""));
}

#[test]
fn parses_errors_warnings_and_ranges() {
    let output = format!("\
AMX Mod X Compiler 1.9.0.5294
Copyright (c) 1997-2006 ITB CompuPhase
Copyright (c) 2004-2013 AMX Mod X Team

/srv/cs/gungame.sma(12) : error 017: undefined symbol \"gg_enable\"
/srv/cs/gungame.sma(30 -- 32) : warning 217: loose indentation
/srv/cs/{}/amxmodx.inc(45) : fatal error 100: cannot read from file
2 Errors.
Could not locate output file /srv/cs/gungame.amx (compile failed).
", format!("{}{}", "inc", "lude"));
    let diags = parse_diagnostics(&output);
    assert_eq!(
        diags,
        vec![
            Diagnostic {
                severity: Severity::Error,
                code: 17,
                line: 12,
                line_end: None,
                message: "undefined symbol \"gg_enable\"".into(),
            },
            Diagnostic {
                severity: Severity::Warning,
                code: 217,
                line: 30,
                line_end: Some(32),
                message: "loose indentation".into(),
            },
            Diagnostic {
                severity: Severity::FatalError,
                code: 100,
                line: 45,
                line_end: None,
                message: "cannot read from file".into(),
            },
        ]
    );
}

#[test]
fn skips_noise() {
    assert!(parse_diagnostics("Done.\nHeader size: 1234\n").is_empty());
    assert!(parse_diagnostics("").is_empty());
}

#[test]
fn severity_names() {
    assert_eq!(Severity::Error.as_str(), "error");
    assert_eq!(Severity::Warning.as_str(), "warning");
    assert_eq!(Severity::FatalError.as_str(), "fatal error");
}

#[test]
fn diagnostics_tolerate_crlf_and_bad_numbers() {
    let diags = parse_diagnostics("a.sma(7) : error 001: bad\r\nb.sma(x) : error 002: skipped\n");
    assert_eq!(diags.len(), 1);
    assert_eq!(diags[0].line, 7);
    assert_eq!(diags[0].code, 1);
    assert_eq!(diags[0].message, "bad");
}
