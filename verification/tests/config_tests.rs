use texcreate_compiler::Compiler;
use texcreate_compiler::CompilerMode;

#[test]
fn default_construction() {
    let c = Compiler::new("myproj");
    assert_eq!(c.compiler().as_str(), "pdflatex");
    assert_eq!(c.proj_name().as_str(), "myproj");
    assert!(c.flags().is_empty());
    assert!(c.clean());
    assert_eq!(c.mode(), CompilerMode::Output);
}

#[test]
fn argument_assembly() {
    let c = Compiler::from_parts(
        String::from("pdflatex"),
        String::from("report"),
        vec![String::from("-interaction=nonstopmode")],
        true,
        CompilerMode::Output,
    );
    let args = c.invocation_args();
    assert_eq!(
        args,
        vec![
            String::from("-output-directory=out"),
            String::from("-interaction=nonstopmode"),
            String::from("report"),
        ]
    );
}

#[test]
fn argument_assembly_no_flags() {
    let c = Compiler::new("demo");
    let args = c.invocation_args();
    assert_eq!(
        args,
        vec![String::from("-output-directory=out"), String::from("demo")]
    );
}

#[test]
fn cleanup_paths_when_clean() {
    let c = Compiler::from_parts(
        String::from("pdflatex"),
        String::from("report"),
        vec![],
        true,
        CompilerMode::Output,
    );
    let paths = c.cleanup_paths();
    assert_eq!(
        paths,
        vec![String::from("out/report.aux"), String::from("out/report.log")]
    );
}

#[test]
fn cleanup_paths_when_not_clean() {
    let c = Compiler::from_parts(
        String::from("pdflatex"),
        String::from("report"),
        vec![],
        false,
        CompilerMode::Output,
    );
    assert!(c.cleanup_paths().is_empty());
}

#[test]
fn config_file_path_in_project_dir() {
    let c = Compiler::new("demo");
    assert_eq!(c.config_file_path(), "demo/compiler.toml");
}

#[test]
fn success_message_names_project() {
    let c = Compiler::new("demo");
    assert_eq!(
        c.success_message(),
        "The project `demo` successfully compiled!"
    );
}
