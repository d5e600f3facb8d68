//! The binding generation run: the headers parsed so far, the settings, and
//! the code a generator makes of each header.
use vstd::prelude::*;
use crate::ffi_file::{FFIFile, FFIFileView};
use crate::grammar::spec_parse_stmts;
use crate::parser::FFIFileParser;

verus! {

broadcast use vstd::string::group_string_axioms;

/// A generator's failure, with its message.
#[derive(Debug)]
pub struct GenError {
    pub message: String,
}

/// A generator of bindings: the code it makes of one parsed header under the
/// run's settings.
pub trait IGenerator {
    /// The code the generator makes of a header under the settings, or
    /// none where it fails.
    spec fn output(&self, file: FFIFileView, config: ParseGenConfig) -> Option<Seq<char>>;

    fn on_process(&self, ffi_file: &FFIFile, config: &ParseGenConfig) -> (r: Result<String, GenError>)
        ensures
            match r {
                Ok(s) => self.output(ffi_file@, *config) == Some(s@),
                Err(_) => self.output(ffi_file@, *config) is None,
            },
    ;
}

/// The settings of a generation run.
pub struct ParseGenConfig {
    pub target: String,
    pub header_dir: String,
    pub out_dir: String,
    pub dll_name: String,
}

/// A generation run: the headers parsed so far, in the order they were
/// added, and the settings.
pub struct ParseGen {
    files: Vec<FFIFile>,
    config: ParseGenConfig,
}

/// The header parsed from `source` under `name`.
pub open spec fn parsed_file(name: Seq<char>, source: Seq<char>) -> FFIFileView {
    FFIFileView { name, stmts: spec_parse_stmts(source, 0, Seq::empty()) }
}

impl ParseGen {
    /// The views of the headers parsed so far.
    pub closed spec fn files(&self) -> Seq<FFIFileView> {
        self.files@.map_values(|f: FFIFile| f@)
    }

    /// The settings.
    pub closed spec fn settings(&self) -> &ParseGenConfig {
        &self.config
    }

    /// A run with no header yet.
    pub fn new(config: ParseGenConfig) -> (g: Self)
        ensures
            g.files() == Seq::<FFIFileView>::empty(),
            *g.settings() == config,
    {
        let g = ParseGen { files: Vec::new(), config };
        proof {
            assert(g.files() =~= Seq::<FFIFileView>::empty());
        }
        g
    }

    /// The settings of the run.
    pub fn config(&self) -> (c: &ParseGenConfig)
        ensures
            c == self.settings(),
    {
        &self.config
    }

    /// The headers parsed so far.
    pub fn parsed_files(&self) -> (f: &Vec<FFIFile>)
        ensures
            f@.map_values(|x: FFIFile| x@) == self.files(),
    {
        &self.files
    }

    /// Parses the header `code_string` named `file_name` and adds it to the
    /// run.
    pub fn add_source(&mut self, file_name: String, code_string: &str)
        requires
            code_string@.len() < usize::MAX,
        ensures
            final(self).files() == old(self).files().push(parsed_file(file_name@, code_string@)),
            *final(self).settings() == *old(self).settings(),
    {
        let ghost name = file_name@;
        let mut parser = FFIFileParser::new(code_string, file_name);
        let r = parser.parse();
        if let Ok(ffi_file) = r {
            let ghost prev = self.files@;
            self.files.push(ffi_file);
            proof {
                assert(self.files() =~= prev.map_values(|x: FFIFile| x@).push(ffi_file@));
            }
        }
    }

    /// The output of `generator` for each header, in order: the name of the
    /// file to write (`<header>.cs`) and the generated code or the failure.
    pub fn generate<G: IGenerator>(&self, generator: &G) -> (out: Vec<(String, Result<String, GenError>)>)
        ensures
            out.len() == self.files().len(),
            forall|i: int| 0 <= i < out.len() ==> (#[trigger] out@[i]).0@ == self.files()[i].name + ".cs"@,
            forall|i: int|
                0 <= i < out.len() ==> match (#[trigger] out@[i]).1 {
                    Ok(s) => generator.output(self.files()[i], *self.settings()) == Some(s@),
                    Err(_) => generator.output(self.files()[i], *self.settings()) is None,
                },
    {
        let mut out: Vec<(String, Result<String, GenError>)> = Vec::new();
        let n = self.files.len();
        let mut i: usize = 0;
        while i < n
            invariant
                n == self.files.len(),
                i <= n,
                out.len() == i,
                forall|k: int| 0 <= k < i ==> (#[trigger] out@[k]).0@ == self.files()[k].name + ".cs"@,
                forall|k: int|
                    0 <= k < i ==> match (#[trigger] out@[k]).1 {
                        Ok(s) => generator.output(self.files()[k], *self.settings()) == Some(s@),
                        Err(_) => generator.output(self.files()[k], *self.settings()) is None,
                    },
            decreases n - i,
        {
            let ffi_file = &self.files[i];
            let code = generator.on_process(ffi_file, &self.config);
            let mut file_name = ffi_file.name.clone();
            file_name.append(".cs");
            out.push((file_name, code));
            i = i + 1;
        }
        out
    }
}

} // verus!
