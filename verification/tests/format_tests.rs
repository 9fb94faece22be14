use texcreate_compiler::Compiler;
use texcreate_compiler::CompilerMode;

fn demo_text() -> String {
    String::new()
        + "compiler = \"pdflatex\"\n"
        + "proj_name = \"demo\"\n"
        + "flags = []\n"
        + "clean = true\n"
        + "mode = \"Output\"\n"
}

#[test]
fn render_of_default_config() {
    let c = Compiler::new("demo");
    assert_eq!(c.to_string(), demo_text());
}

#[test]
fn render_with_flags_spawn_no_clean() {
    let c = Compiler::from_parts(
        String::from("xelatex"),
        String::from("thesis"),
        vec![String::from("-interaction=nonstopmode"), String::from("-halt-on-error")],
        false,
        CompilerMode::Spawn,
    );
    let expected = String::new()
        + "compiler = \"xelatex\"\n"
        + "proj_name = \"thesis\"\n"
        + "flags = [\"-interaction=nonstopmode\", \"-halt-on-error\"]\n"
        + "clean = false\n"
        + "mode = \"Spawn\"\n";
    assert_eq!(c.to_string(), expected);
}

#[test]
fn parse_canonical_text() {
    let c = Compiler::parse(&demo_text()).unwrap();
    assert_eq!(c.compiler().as_str(), "pdflatex");
    assert_eq!(c.proj_name().as_str(), "demo");
    assert!(c.flags().is_empty());
    assert!(c.clean());
    assert_eq!(c.mode(), CompilerMode::Output);
}

#[test]
fn round_trip_default() {
    let c = Compiler::new("demo");
    let back = Compiler::parse(&c.to_string()).unwrap();
    assert_eq!(back.compiler(), c.compiler());
    assert_eq!(back.proj_name(), c.proj_name());
    assert_eq!(back.flags(), c.flags());
    assert_eq!(back.clean(), c.clean());
    assert_eq!(back.mode(), c.mode());
}

#[test]
fn round_trip_with_flags() {
    let c = Compiler::from_parts(
        String::from("lualatex"),
        String::from("notes"),
        vec![String::from("-shell-escape"), String::from("-quiet"), String::from("-v")],
        false,
        CompilerMode::Spawn,
    );
    let back = Compiler::parse(&c.to_string()).unwrap();
    assert_eq!(back.compiler(), c.compiler());
    assert_eq!(back.proj_name(), c.proj_name());
    assert_eq!(back.flags(), c.flags());
    assert_eq!(back.clean(), c.clean());
    assert_eq!(back.mode(), c.mode());
}

#[test]
fn render_escapes_specials() {
    let c = Compiler::from_parts(
        String::from("pdflatex"),
        String::from("a\"b\\c"),
        vec![String::from("-x\ny")],
        true,
        CompilerMode::Output,
    );
    let expected = String::new()
        + "compiler = \"pdflatex\"\n"
        + "proj_name = \"a\\\"b\\\\c\"\n"
        + "flags = [\"-x\\ny\"]\n"
        + "clean = true\n"
        + "mode = \"Output\"\n";
    assert_eq!(c.to_string(), expected);
}

#[test]
fn parse_decodes_escapes() {
    let text = String::new()
        + "compiler = \"pdf\\\\latex\"\n"
        + "proj_name = \"a\\\"b\"\n"
        + "flags = [\"-x\\ny\", \"-z\\rw\"]\n"
        + "clean = false\n"
        + "mode = \"Spawn\"\n";
    let c = Compiler::parse(&text).unwrap();
    assert_eq!(c.compiler().as_str(), "pdf\\latex");
    assert_eq!(c.proj_name().as_str(), "a\"b");
    assert_eq!(
        c.flags(),
        &vec![String::from("-x\ny"), String::from("-z\rw")]
    );
    assert!(!c.clean());
    assert_eq!(c.mode(), CompilerMode::Spawn);
}

#[test]
fn round_trip_with_special_chars() {
    let c = Compiler::from_parts(
        String::from("pdf\"la\\tex"),
        String::from("a\nb\rc"),
        vec![String::from("\\"), String::from("\"\""), String::from("plain")],
        true,
        CompilerMode::Spawn,
    );
    let back = Compiler::parse(&c.to_string()).unwrap();
    assert_eq!(back.compiler(), c.compiler());
    assert_eq!(back.proj_name(), c.proj_name());
    assert_eq!(back.flags(), c.flags());
    assert_eq!(back.clean(), c.clean());
    assert_eq!(back.mode(), c.mode());
}

#[test]
fn parse_rejects_unknown_mode() {
    let text = String::new()
        + "compiler = \"pdflatex\"\n"
        + "proj_name = \"demo\"\n"
        + "flags = []\n"
        + "clean = true\n"
        + "mode = \"Banana\"\n";
    assert!(Compiler::parse(&text).is_err());
}

#[test]
fn parse_rejects_empty_input() {
    assert!(Compiler::parse("").is_err());
}

#[test]
fn parse_rejects_missing_field() {
    let text = String::new()
        + "compiler = \"pdflatex\"\n"
        + "flags = []\n"
        + "clean = true\n"
        + "mode = \"Output\"\n";
    assert!(Compiler::parse(&text).is_err());
}

#[test]
fn parse_rejects_bad_bool() {
    let text = String::new()
        + "compiler = \"pdflatex\"\n"
        + "proj_name = \"demo\"\n"
        + "flags = []\n"
        + "clean = yes\n"
        + "mode = \"Output\"\n";
    assert!(Compiler::parse(&text).is_err());
}

#[test]
fn parse_rejects_unterminated_string() {
    let text = "compiler = \"pdflatex\nproj_name = \"demo\"\nflags = []\nclean = true\nmode = \"Output\"\n";
    assert!(Compiler::parse(text).is_err());
}

#[test]
fn parse_rejects_trailing_text() {
    let text = demo_text() + "extra = 1\n";
    assert!(Compiler::parse(&text).is_err());
}

#[test]
fn parse_rejects_reordered_fields() {
    let text = String::new()
        + "proj_name = \"demo\"\n"
        + "compiler = \"pdflatex\"\n"
        + "flags = []\n"
        + "clean = true\n"
        + "mode = \"Output\"\n";
    assert!(Compiler::parse(&text).is_err());
}

#[test]
fn parse_rejects_backslash_in_string() {
    let text = String::new()
        + "compiler = \"pdf\\latex\"\n"
        + "proj_name = \"demo\"\n"
        + "flags = []\n"
        + "clean = true\n"
        + "mode = \"Output\"\n";
    assert!(Compiler::parse(&text).is_err());
}
