//! The arguments of the document-merging command line tool, and the
//! decisions it takes from them.
use vstd::prelude::*;
use std::path::PathBuf;
use crate::path::chars_of;
use crate::text::{replace_all, replace_all_text, text_at};

verus! {

#[verifier::external_type_specification]
#[verifier::external_body]
pub struct ExPathBuf(std::path::PathBuf);

/// Relies on `Path::is_absolute`: whether the path is absolute under this
/// platform's rules.
#[verifier::external_body]
fn is_absolute(p: &PathBuf) -> bool {
    p.is_absolute()
}

/// Relies on `Path::join`: `p` appended to `base`.
#[verifier::external_body]
fn join(base: &PathBuf, p: &PathBuf) -> PathBuf {
    base.join(p)
}

/// Relies on `PathBuf::clone`: an equal copy.
#[verifier::external_body]
fn clone_path(p: &PathBuf) -> (r: PathBuf)
    ensures
        r == *p,
{
    p.clone()
}

/// The command line.
#[derive(Debug, Clone)]
pub struct Args {
    pub command: Subcommand,
}

/// The tool's subcommands.
#[derive(Debug, Clone)]
pub enum Subcommand {
    Merge(MergeArgs),
}

/// How a document is written.
#[derive(Copy, Clone, Debug, PartialEq, Eq, Structural)]
pub enum Encoding {
    Json,
    Yaml,
    Yml,
}

/// A template variable: each `${key}` in the template becomes `value`.
#[derive(Debug, Clone, PartialEq, Eq)]
pub struct TemplateVar {
    pub key: String,
    pub value: String,
}

/// The arguments of the merge subcommand.
#[derive(Debug, Clone)]
pub struct MergeArgs {
    /// The main template file.
    pub file: Option<PathBuf>,
    /// The template as JSON text.
    pub json: Option<String>,
    /// The template as YAML text.
    pub yaml: Option<String>,
    /// The template's encoding (by default, the one its source implies).
    pub encoding: Option<Encoding>,
    /// Template variables.
    pub template_vars: Vec<TemplateVar>,
    /// Where to write the result (by default, standard output).
    pub output: Option<PathBuf>,
    /// The result's encoding.
    pub output_format: Option<Encoding>,
    /// The directory that relative paths in the template are resolved
    /// against (by default, the current directory).
    pub working_directory: Option<PathBuf>,
    /// Whether to log progress.
    pub verbose: bool,
    /// Whether to write an OpenAPI 2 document.
    pub use_version_2: bool,
}

/// The encoding that a file extension implies.
pub open spec fn encoding_of_extension(ext: Seq<char>) -> Option<Encoding> {
    if ext == "json"@ {
        Some(Encoding::Json)
    } else if ext == "yaml"@ || ext == "yml"@ {
        Some(Encoding::Yaml)
    } else {
        None
    }
}

/// Whether two texts are equal.
fn same_text(a: &str, b: &str) -> (r: bool)
    ensures
        r == (a@ == b@),
{
    a.to_owned() == b.to_owned()
}

impl Encoding {
    /// The encoding that a file extension implies: `json` is JSON, `yaml`
    /// and `yml` are YAML, any other is unknown.
    pub fn from_extension(ext: &str) -> (r: Option<Encoding>)
        ensures
            r == encoding_of_extension(ext@),
    {
        if same_text(ext, "json") {
            Some(Encoding::Json)
        } else if same_text(ext, "yaml") || same_text(ext, "yml") {
            Some(Encoding::Yaml)
        } else {
            None
        }
    }
}

/// How a merged document is written out.
#[derive(Copy, Clone, Debug, PartialEq, Eq, Structural)]
pub enum OutputFormat {
    Yaml,
    Json,
    PrettyJson,
}

/// The output format for a requested encoding: `Yaml` gives YAML, `Yml`
/// gives compact JSON, and anything else pretty-printed JSON.
pub fn output_format(enc: Option<Encoding>) -> (r: OutputFormat)
    ensures
        r == match enc {
            Some(Encoding::Yaml) => OutputFormat::Yaml,
            Some(Encoding::Yml) => OutputFormat::Json,
            _ => OutputFormat::PrettyJson,
        },
{
    match enc {
        Some(Encoding::Yaml) => OutputFormat::Yaml,
        Some(Encoding::Yml) => OutputFormat::Json,
        _ => OutputFormat::PrettyJson,
    }
}

/// The message for a template variable without a value.
pub open spec fn missing_value_message(s: Seq<char>) -> Seq<char> {
    "Missing value in '"@ + s + "'. Expected format: key=value"@
}

impl TemplateVar {
    /// Parses `key=value`: the key runs up to the first `=`, the value is
    /// everything after it (and may hold further `=`).
    pub fn parse(s: &str) -> (r: Result<TemplateVar, String>)
        ensures
            match r {
                Ok(v) => exists|i: int|
                    {
                        &&& 0 <= i < s@.len()
                        &&& s@[i] == '='
                        &&& forall|j: int| 0 <= j < i ==> s@[j] != '='
                        &&& v.key@ == s@.take(i)
                        &&& v.value@ == s@.skip(i + 1)
                    },
                Err(e) => (forall|j: int| 0 <= j < s@.len() ==> s@[j] != '=') && e@
                    == missing_value_message(s@),
            },
    {
        let chars = chars_of(s);
        let mut i: usize = 0;
        while i < chars.len()
            invariant
                chars@ == s@,
                i <= chars.len(),
                forall|j: int| 0 <= j < i ==> s@[j] != '=',
            decreases chars.len() - i,
        {
            if chars[i] == '=' {
                let key = text_at(s, 0, i);
                let value = text_at(s, i + 1, chars.len());
                assert(s@.take(i as int) == s@.subrange(0, i as int));
                assert(s@.skip(i + 1) == s@.subrange(i + 1, s@.len() as int));
                return Ok(TemplateVar { key, value });
            }
            i = i + 1;
        }
        let mut e = String::from_str("Missing value in '");
        e.append(s);
        e.append("'. Expected format: key=value");
        Err(e)
    }
}

impl std::str::FromStr for TemplateVar {
    type Err = String;

    fn from_str(s: &str) -> Result<TemplateVar, String> {
        TemplateVar::parse(s)
    }
}

/// Where the template comes from.
#[derive(Debug)]
pub enum TemplateSource<'a> {
    /// A file to read.
    File(&'a PathBuf),
    /// Text given on the command line.
    Text(&'a String),
}

impl MergeArgs {
    /// The template's source: the file if one is given, else the JSON text,
    /// else the YAML text; `None` when there is none of them.
    pub fn template_source(&self) -> (r: Option<TemplateSource<'_>>)
        ensures
            match r {
                Some(TemplateSource::File(f)) => self.file == Some(*f),
                Some(TemplateSource::Text(t)) => self.file is None && if self.json is Some {
                    self.json == Some(*t)
                } else {
                    self.yaml == Some(*t)
                },
                None => self.file is None && self.json is None && self.yaml is None,
            },
    {
        if let Some(f) = &self.file {
            Some(TemplateSource::File(f))
        } else if let Some(t) = &self.json {
            Some(TemplateSource::Text(t))
        } else if let Some(t) = &self.yaml {
            Some(TemplateSource::Text(t))
        } else {
            None
        }
    }

    /// The directory that relative paths are resolved against: the one
    /// given, else `current_dir`.
    pub fn working_dir(&self, current_dir: PathBuf) -> (r: PathBuf)
        ensures
            r == match self.working_directory {
                Some(w) => w,
                None => current_dir,
            },
    {
        match &self.working_directory {
            Some(w) => clone_path(w),
            None => current_dir,
        }
    }

    /// `path` itself when it is absolute, else `path` under the working
    /// directory; `current_dir` stands in for a missing working directory.
    pub fn relative_path(&self, path: &PathBuf, current_dir: PathBuf) -> PathBuf {
        if is_absolute(path) {
            return clone_path(path);
        }
        join(&self.working_dir(current_dir), path)
    }

    /// The template's encoding: the one given explicitly; else the one that
    /// the template file's extension implies; else JSON for a JSON text and
    /// YAML for a YAML text.
    pub fn template_encoding(&self, file_extension: Option<&str>) -> (r: Option<Encoding>)
        ensures
            r == if self.encoding is Some {
                self.encoding
            } else if self.file is Some {
                match file_extension {
                    Some(ext) => encoding_of_extension(ext@),
                    None => None,
                }
            } else if self.json is Some {
                Some(Encoding::Json)
            } else if self.yaml is Some {
                Some(Encoding::Yaml)
            } else {
                None
            },
    {
        if let Some(e) = self.encoding {
            return Some(e);
        }
        if self.file.is_some() {
            match file_extension {
                Some(ext) => Encoding::from_extension(ext),
                None => None,
            }
        } else if self.json.is_some() {
            Some(Encoding::Json)
        } else if self.yaml.is_some() {
            Some(Encoding::Yaml)
        } else {
            None
        }
    }
}

/// The placeholder that a template variable fills: `${key}`.
pub open spec fn placeholder(key: Seq<char>) -> Seq<char> {
    seq!['$', '{'] + key + seq!['}']
}

/// `source` after each variable of `vars` in turn has replaced every
/// placeholder of its key by its value.
pub open spec fn templated(source: Seq<char>, vars: Seq<TemplateVar>) -> Seq<char>
    decreases vars.len(),
{
    if vars.len() == 0 {
        source
    } else {
        let v = vars.last();
        replace_all(templated(source, vars.drop_last()), placeholder(v.key@), v.value@)
    }
}

impl MergeArgs {
    /// The template text with the template variables filled in, one variable
    /// after the other.
    pub fn fill_template(&self, source: &str) -> (r: String)
        ensures
            r@ == templated(source@, self.template_vars@),
    {
        let vars = &self.template_vars;
        let mut out = source.to_owned();
        let mut k: usize = 0;
        assert(vars@.take(0) =~= Seq::<TemplateVar>::empty());
        while k < vars.len()
            invariant
                k <= vars@.len(),
                out@ == templated(source@, vars@.take(k as int)),
            decreases vars@.len() - k,
        {
            let mut ph = String::from_str("${");
            ph.append(vars[k].key.as_str());
            ph.append("}");
            proof {
                reveal_strlit("${");
                reveal_strlit("}");
                assert(ph@ =~= placeholder(vars@[k as int].key@));
                assert(vars@.take(k + 1).drop_last() =~= vars@.take(k as int));
            }
            out = replace_all_text(out.as_str(), ph.as_str(), vars[k].value.as_str());
            k = k + 1;
        }
        assert(vars@.take(k as int) =~= vars@);
        out
    }
}

} // verus!
