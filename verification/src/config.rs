//! The configuration record itself: its fields, its mathematical view and
//! the pure functions that drive one compile run (argument assembly,
//! cleanup paths, file path and the success notification).

use vstd::prelude::*;

verus! {

/// How the compiler subprocess's standard streams are handled: `Spawn`
/// inherits the caller's streams, `Output` captures and discards them.
#[derive(Debug, Copy, Clone, PartialEq, Eq, Structural)]
pub enum CompilerMode {
    Spawn,
    Output,
}

/// The build configuration for one LaTeX project.
#[derive(Debug, Clone)]
pub struct Compiler {
    /// Name or path of the LaTeX compiler executable.
    compiler: String,
    /// Logical name of the project: config-file directory and the
    /// compiler's input basename.
    proj_name: String,
    /// Extra command-line arguments, passed through in order.
    flags: Vec<String>,
    /// Whether to delete the `.aux` and `.log` artifacts after a compile.
    clean: bool,
    /// How the subprocess's output is handled.
    mode: CompilerMode,
}

/// The mathematical value of a [`Compiler`]: each string as a sequence of
/// characters.
#[verifier::ext_equal]
pub ghost struct ConfigV {
    pub compiler: Seq<char>,
    pub proj_name: Seq<char>,
    pub flags: Seq<Seq<char>>,
    pub clean: bool,
    pub mode: CompilerMode,
}

impl View for Compiler {
    type V = ConfigV;

    closed spec fn view(&self) -> ConfigV {
        ConfigV {
            compiler: self.compiler@,
            proj_name: self.proj_name@,
            flags: self.flags.deep_view(),
            clean: self.clean,
            mode: self.mode,
        }
    }
}

/// The flag that sends the compiler's artifacts to the fixed output
/// directory; always the first argument of an invocation.
pub open spec fn output_dir_flag() -> Seq<char> {
    "-output-directory=out"@
}

/// Where the auxiliary artifact of project `p` lands.
pub open spec fn aux_path(p: Seq<char>) -> Seq<char> {
    "out/"@ + p + ".aux"@
}

/// Where the log artifact of project `p` lands.
pub open spec fn log_path(p: Seq<char>) -> Seq<char> {
    "out/"@ + p + ".log"@
}

/// Where the configuration file of project `p` is written.
pub open spec fn config_path(p: Seq<char>) -> Seq<char> {
    p + "/compiler.toml"@
}

/// The notification text for a successful compile of project `p`.
pub open spec fn success_text(p: Seq<char>) -> Seq<char> {
    "The project `"@ + p + "` successfully compiled!"@
}

impl Compiler {
    /// A fresh configuration for `proj_name`: `pdflatex`, no extra flags,
    /// cleanup on, output-capturing mode.
    pub fn new(proj_name: &str) -> (c: Compiler)
        ensures
            c@.compiler == "pdflatex"@,
            c@.proj_name == proj_name@,
            c@.flags == Seq::<Seq<char>>::empty(),
            c@.clean == true,
            c@.mode == CompilerMode::Output,
    {
        let c = Compiler {
            compiler: String::from_str("pdflatex"),
            proj_name: proj_name.to_owned(),
            flags: Vec::new(),
            clean: true,
            mode: CompilerMode::Output,
        };
        proof {
            assert(c@.flags =~= Seq::<Seq<char>>::empty());
        }
        c
    }

    /// A configuration assembled from each field's value.
    pub fn from_parts(
        compiler: String,
        proj_name: String,
        flags: Vec<String>,
        clean: bool,
        mode: CompilerMode,
    ) -> (c: Compiler)
        ensures
            c@ == (ConfigV {
                compiler: compiler@,
                proj_name: proj_name@,
                flags: flags.deep_view(),
                clean,
                mode,
            }),
    {
        Compiler { compiler, proj_name, flags, clean, mode }
    }

    /// The full argument list of one invocation: the output-directory
    /// flag first, then the configured flags in order, then the project
    /// name as the final positional argument.
    pub fn invocation_args(&self) -> (args: Vec<String>)
        ensures
            args.deep_view() == seq![output_dir_flag()] + self@.flags + seq![self@.proj_name],
    {
        let mut args: Vec<String> = Vec::new();
        args.push(String::from_str("-output-directory=out"));
        let n = self.flags.len();
        let mut i: usize = 0;
        while i < n
            invariant
                n == self.flags.len(),
                i <= n,
                args@.len() == 1 + i,
                args@[0]@ == output_dir_flag(),
                forall|k: int| 0 <= k < i ==> args@[k + 1]@ == self@.flags[k],
            decreases n - i,
        {
            args.push(self.flags[i].clone());
            i += 1;
        }
        args.push(self.proj_name.clone());
        proof {
            assert(args.deep_view() =~= seq![output_dir_flag()] + self@.flags
                + seq![self@.proj_name]);
        }
        args
    }

    /// The artifact files one compile run deletes afterwards: the `.aux`
    /// and `.log` files of the project when `clean` is set, nothing
    /// otherwise.
    pub fn cleanup_paths(&self) -> (paths: Vec<String>)
        ensures
            self@.clean ==> paths.deep_view() == seq![
                aux_path(self@.proj_name),
                log_path(self@.proj_name),
            ],
            !self@.clean ==> paths.deep_view() == Seq::<Seq<char>>::empty(),
    {
        let mut paths: Vec<String> = Vec::new();
        if self.clean {
            let mut aux = String::from_str("out/");
            aux.append(self.proj_name.as_str());
            aux.append(".aux");
            let mut log = String::from_str("out/");
            log.append(self.proj_name.as_str());
            log.append(".log");
            paths.push(aux);
            paths.push(log);
            proof {
                assert(paths.deep_view() =~= seq![
                    aux_path(self@.proj_name),
                    log_path(self@.proj_name),
                ]);
            }
        } else {
            proof {
                assert(paths.deep_view() =~= Seq::<Seq<char>>::empty());
            }
        }
        paths
    }

    /// The path the configuration file of this project is written to.
    pub fn config_file_path(&self) -> (p: String)
        ensures
            p@ == config_path(self@.proj_name),
    {
        let mut p = self.proj_name.clone();
        p.append("/compiler.toml");
        p
    }

    /// The notification text emitted after a fully successful compile.
    pub fn success_message(&self) -> (m: String)
        ensures
            m@ == success_text(self@.proj_name),
    {
        let mut m = String::from_str("The project `");
        m.append(self.proj_name.as_str());
        m.append("` successfully compiled!");
        m
    }

    /// Name or path of the configured compiler executable.
    pub fn compiler(&self) -> (r: &String)
        ensures
            r@ == self@.compiler,
    {
        &self.compiler
    }

    /// The configured project name.
    pub fn proj_name(&self) -> (r: &String)
        ensures
            r@ == self@.proj_name,
    {
        &self.proj_name
    }

    /// The configured extra flags, in order.
    pub fn flags(&self) -> (r: &Vec<String>)
        ensures
            r.deep_view() == self@.flags,
    {
        &self.flags
    }

    /// Whether artifacts are deleted after a compile.
    pub fn clean(&self) -> (r: bool)
        ensures
            r == self@.clean,
    {
        self.clean
    }

    /// How the subprocess's output is handled.
    pub fn mode(&self) -> (r: CompilerMode)
        ensures
            r == self@.mode,
    {
        self.mode
    }
}

} // verus!
