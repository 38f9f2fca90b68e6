//! Batch processor scripts: rules of commands between `StartRule` and
//! `EndRule`, their parsing, and the bookkeeping of running them.
use vstd::prelude::*;
use crate::esp::parser::opt_text;
use crate::text::{lines_of, trim_chars, chars_of, string_from_chars, ascii_lower_vec, find_char, slice_chars,
    chars_eq, lines, trim, ascii_lower, first_index};

verus! {

/// Global folders of a script.
#[derive(Debug, Clone, PartialEq, Eq, Default)]
pub struct CommandProcessorGlobals {
    pub vocab_folder: Option<String>,
    pub import_folder: Option<String>,
    pub export_folder: Option<String>,
}

/// A rule: its settings and commands, with the line of its `StartRule`.
#[derive(Debug, Clone, PartialEq, Eq)]
pub struct CommandRule {
    pub line: usize,
    pub lang_source: Option<String>,
    pub lang_dest: Option<String>,
    pub use_data_dir: bool,
    pub export_subfolder: Option<String>,
    pub commands: Vec<ProcessorCommand>,
}

/// A command and its line.
#[derive(Debug, Clone, PartialEq, Eq)]
pub struct ProcessorCommand {
    pub line: usize,
    pub kind: ProcessorCommandKind,
}

/// What a command does.
#[derive(Debug, Clone, PartialEq, Eq)]
pub enum ProcessorCommandKind {
    LoadFile { path: String },
    CloseFile,
    CloseAll,
    Finalize,
    GenerateDictionaries,
    ApplySst { compare_option: u8, apply_mode: u8, path: String },
    ImportSst { compare_option: u8, apply_mode: u8, path: String },
    ImportXml { compare_option: u8, apply_mode: u8, path: String },
    LoadMasters,
    SaveDictionary,
    ApiTranslation { api_id: u8, auto_no_trans_tag: bool },
}

/// A parsed script: globals and rules.
#[derive(Debug, Clone, PartialEq, Eq, Default)]
pub struct CommandProcessorScript {
    pub globals: CommandProcessorGlobals,
    pub rules: Vec<CommandRule>,
}

/// Why a script was refused.
#[derive(Debug, Clone, PartialEq, Eq)]
pub enum CommandProcessorParseError {
    UnexpectedEndRule { line: usize },
    NestedStartRule { line: usize },
    UnterminatedRule { line: usize },
    CommandOutsideRule { line: usize },
    UnknownCommand { line: usize, command: String },
    MissingParameter { line: usize, command: String, parameter: &'static str },
    InvalidParameter { line: usize, command: String, parameter: &'static str, value: String },
}

/// What a command does, with its texts as character sequences.
pub enum KindV {
    LoadFile { path: Seq<char> },
    CloseFile,
    CloseAll,
    Finalize,
    GenerateDictionaries,
    ApplySst { compare_option: u8, apply_mode: u8, path: Seq<char> },
    ImportSst { compare_option: u8, apply_mode: u8, path: Seq<char> },
    ImportXml { compare_option: u8, apply_mode: u8, path: Seq<char> },
    LoadMasters,
    SaveDictionary,
    ApiTranslation { api_id: u8, auto_no_trans_tag: bool },
}

impl View for ProcessorCommandKind {
    type V = KindV;

    open spec fn view(&self) -> KindV {
        match self {
            ProcessorCommandKind::LoadFile { path } => KindV::LoadFile { path: path@ },
            ProcessorCommandKind::CloseFile => KindV::CloseFile,
            ProcessorCommandKind::CloseAll => KindV::CloseAll,
            ProcessorCommandKind::Finalize => KindV::Finalize,
            ProcessorCommandKind::GenerateDictionaries => KindV::GenerateDictionaries,
            ProcessorCommandKind::ApplySst { compare_option, apply_mode, path } =>
                KindV::ApplySst { compare_option: *compare_option, apply_mode: *apply_mode, path: path@ },
            ProcessorCommandKind::ImportSst { compare_option, apply_mode, path } =>
                KindV::ImportSst { compare_option: *compare_option, apply_mode: *apply_mode, path: path@ },
            ProcessorCommandKind::ImportXml { compare_option, apply_mode, path } =>
                KindV::ImportXml { compare_option: *compare_option, apply_mode: *apply_mode, path: path@ },
            ProcessorCommandKind::LoadMasters => KindV::LoadMasters,
            ProcessorCommandKind::SaveDictionary => KindV::SaveDictionary,
            ProcessorCommandKind::ApiTranslation { api_id, auto_no_trans_tag } =>
                KindV::ApiTranslation { api_id: *api_id, auto_no_trans_tag: *auto_no_trans_tag },
        }
    }
}

/// A command as plain values.
pub struct CommandV {
    pub line: nat,
    pub kind: KindV,
}

/// A rule as plain values.
pub struct RuleV {
    pub line: nat,
    pub lang_source: Option<Seq<char>>,
    pub lang_dest: Option<Seq<char>>,
    pub use_data_dir: bool,
    pub export_subfolder: Option<Seq<char>>,
    pub commands: Seq<CommandV>,
}

/// Global folders as plain values.
pub struct GlobalsV {
    pub vocab_folder: Option<Seq<char>>,
    pub import_folder: Option<Seq<char>>,
    pub export_folder: Option<Seq<char>>,
}

/// A script as plain values.
pub struct ScriptV {
    pub globals: GlobalsV,
    pub rules: Seq<RuleV>,
}

/// A refusal as plain values.
pub enum ErrV {
    UnexpectedEndRule { line: nat },
    NestedStartRule { line: nat },
    UnterminatedRule { line: nat },
    CommandOutsideRule { line: nat },
    UnknownCommand { line: nat, command: Seq<char> },
    MissingParameter { line: nat, command: Seq<char>, parameter: Seq<char> },
    InvalidParameter { line: nat, command: Seq<char>, parameter: Seq<char>, value: Seq<char> },
}

impl View for ProcessorCommand {
    type V = CommandV;

    open spec fn view(&self) -> CommandV {
        CommandV { line: self.line as nat, kind: self.kind@ }
    }
}

impl View for CommandRule {
    type V = RuleV;

    open spec fn view(&self) -> RuleV {
        RuleV {
            line: self.line as nat,
            lang_source: opt_text(self.lang_source),
            lang_dest: opt_text(self.lang_dest),
            use_data_dir: self.use_data_dir,
            export_subfolder: opt_text(self.export_subfolder),
            commands: self.commands@.map_values(|c: ProcessorCommand| c@),
        }
    }
}

impl View for CommandProcessorGlobals {
    type V = GlobalsV;

    open spec fn view(&self) -> GlobalsV {
        GlobalsV {
            vocab_folder: opt_text(self.vocab_folder),
            import_folder: opt_text(self.import_folder),
            export_folder: opt_text(self.export_folder),
        }
    }
}

impl View for CommandProcessorScript {
    type V = ScriptV;

    open spec fn view(&self) -> ScriptV {
        ScriptV { globals: self.globals@, rules: self.rules@.map_values(|r: CommandRule| r@) }
    }
}

impl View for CommandProcessorParseError {
    type V = ErrV;

    open spec fn view(&self) -> ErrV {
        match self {
            CommandProcessorParseError::UnexpectedEndRule { line } => ErrV::UnexpectedEndRule { line: *line as nat },
            CommandProcessorParseError::NestedStartRule { line } => ErrV::NestedStartRule { line: *line as nat },
            CommandProcessorParseError::UnterminatedRule { line } => ErrV::UnterminatedRule { line: *line as nat },
            CommandProcessorParseError::CommandOutsideRule { line } => ErrV::CommandOutsideRule { line: *line as nat },
            CommandProcessorParseError::UnknownCommand { line, command } =>
                ErrV::UnknownCommand { line: *line as nat, command: command@ },
            CommandProcessorParseError::MissingParameter { line, command, parameter } =>
                ErrV::MissingParameter { line: *line as nat, command: command@, parameter: parameter@ },
            CommandProcessorParseError::InvalidParameter { line, command, parameter, value } =>
                ErrV::InvalidParameter { line: *line as nat, command: command@, parameter: parameter@, value: value@ },
        }
    }
}

/// The value of a run of decimal digits.
pub open spec fn digits_value(s: Seq<char>) -> int
    decreases s.len(),
{
    if s.len() == 0 {
        0
    } else {
        digits_value(s.drop_last()) * 10 + ((s.last() as int) - ('0' as int))
    }
}

/// Whether every character is an ASCII decimal digit.
pub open spec fn all_digits(s: Seq<char>) -> bool {
    forall|i: int| 0 <= i < s.len() ==> '0' <= #[trigger] s[i] && s[i] <= '9'
}

/// A byte written in decimal, as `str::parse::<u8>` reads it: an optional
/// `+`, then at least one digit, and a value below 256.
pub open spec fn spec_parse_u8(s: Seq<char>) -> Option<u8> {
    let d = if s.len() > 0 && s[0] == '+' { s.drop_first() } else { s };
    if d.len() > 0 && all_digits(d) && digits_value(d) < 256 { Some(digits_value(d) as u8) } else { None }
}

proof fn lemma_digits_value_bounds(s: Seq<char>)
    requires
        all_digits(s),
    ensures
        digits_value(s) >= 0,
    decreases s.len(),
{
    if s.len() > 0 {
        lemma_digits_value_bounds(s.drop_last());
    }
}

/// Reads a byte written in decimal (see [`spec_parse_u8`]).
pub fn parse_u8_text(s: &Vec<char>) -> (r: Option<u8>)
    ensures
        r == spec_parse_u8(s@),
{
    let start: usize = if s.len() > 0 && s[0] == '+' { 1 } else { 0 };
    let ghost d = if s@.len() > 0 && s@[0] == '+' { s@.drop_first() } else { s@ };
    assert(d =~= s@.subrange(start as int, s@.len() as int));
    if start >= s.len() {
        return None;
    }
    let mut v: u32 = 0;
    let mut i: usize = start;
    while i < s.len()
        invariant
            start <= i <= s@.len(),
            d == (if s@.len() > 0 && s@[0] == '+' { s@.drop_first() } else { s@ }),
            d =~= s@.subrange(start as int, s@.len() as int),
            all_digits(s@.subrange(start as int, i as int)),
            v as int == digits_value(s@.subrange(start as int, i as int)),
            v < 256,
        decreases s@.len() - i,
    {
        let c = s[i];
        if !('0' <= c && c <= '9') {
            assert(!all_digits(d)) by {
                assert(d[i - start] == c);
            }
            return None;
        }
        assert(s@.subrange(start as int, i + 1).drop_last() =~= s@.subrange(start as int, i as int));
        let nv = v * 10 + ((c as u32) - 0x30);
        i = i + 1;
        assert(digits_value(s@.subrange(start as int, i as int)) == nv);
        if nv >= 256 {
            proof {
                assert(all_digits(s@.subrange(start as int, i as int)));
                if all_digits(d) {
                    lemma_prefix_value(d, i - start);
                    assert(d.subrange(0, i - start) =~= s@.subrange(start as int, i as int));
                }
            }
            return None;
        }
        v = nv;
    }
    assert(s@.subrange(start as int, s@.len() as int) =~= d);
    Some(v as u8)
}

proof fn lemma_prefix_value(d: Seq<char>, k: int)
    requires
        0 <= k <= d.len(),
        all_digits(d),
    ensures
        digits_value(d) >= digits_value(d.subrange(0, k)),
    decreases d.len() - k,
{
    if k < d.len() {
        lemma_prefix_value(d, k + 1);
        assert(d.subrange(0, k + 1).drop_last() =~= d.subrange(0, k));
        lemma_digits_value_bounds(d.subrange(0, k));
        assert(all_digits(d.subrange(0, k)));
    } else {
        assert(d.subrange(0, k) =~= d);
    }
}

/// `s` split at the first `c`, as `str::split_once` gives it.
pub open spec fn split_once(s: Seq<char>, c: char) -> Option<(Seq<char>, Seq<char>)> {
    match first_index(s, c) {
        Some(i) => Some((s.take(i), s.skip(i + 1))),
        None => None,
    }
}

/// `s` split at the first `c` (see [`split_once`]).
fn split_once_chars(s: &Vec<char>, c: char) -> (r: Option<(Vec<char>, Vec<char>)>)
    ensures
        match r {
            Some((a, b)) => split_once(s@, c) == Some((a@, b@)),
            None => split_once(s@, c) is None,
        },
{
    let n = s.len();
    match find_char(s, c) {
        Some(i) => {
            let a = slice_chars(s, 0, i);
            let b = slice_chars(s, i + 1, s.len());
            assert(a@ =~= s@.take(i as int));
            assert(b@ =~= s@.skip(i + 1));
            Some((a, b))
        },
        None => None,
    }
}

/// The trimmed text, or `None` when it is empty.
pub open spec fn non_empty(v: Seq<char>) -> Option<Seq<char>> {
    let t = trim(v);
    if t.len() == 0 { None } else { Some(t) }
}

/// A yes/no value as the processor writes it: `1`, `true`, `yes`, `on`, or
/// `0`, `false`, `no`, `off`, in any case, around white space.
pub open spec fn delphi_bool(v: Seq<char>) -> Option<bool> {
    let l = ascii_lower(trim(v));
    if l == "1"@ || l == "true"@ || l == "yes"@ || l == "on"@ {
        Some(true)
    } else if l == "0"@ || l == "false"@ || l == "no"@ || l == "off"@ {
        Some(false)
    } else {
        None
    }
}

/// A parameter, trimmed, or the error that it is missing.
pub open spec fn require_text(o: Option<Seq<char>>, line: nat, command: Seq<char>, parameter: Seq<char>)
    -> Result<Seq<char>, ErrV> {
    match o {
        Some(v) => if trim(v).len() > 0 {
            Ok(trim(v))
        } else {
            Err(ErrV::MissingParameter { line, command, parameter })
        },
        None => Err(ErrV::MissingParameter { line, command, parameter }),
    }
}

/// A byte parameter, or the error that it is missing or not a byte.
pub open spec fn byte_param(o: Option<Seq<char>>, line: nat, command: Seq<char>, parameter: Seq<char>)
    -> Result<u8, ErrV> {
    match require_text(o, line, command, parameter) {
        Ok(t) => match spec_parse_u8(trim(t)) {
            Some(b) => Ok(b),
            None => Err(ErrV::InvalidParameter { line, command, parameter, value: t }),
        },
        Err(e) => Err(e),
    }
}

/// Which import a command asks for.
pub enum ImportKind {
    ApplySst,
    ImportSst,
    ImportXml,
}

/// The import command of a kind.
pub open spec fn import_kind(kind: ImportKind, compare_option: u8, apply_mode: u8, path: Seq<char>) -> KindV {
    match kind {
        ImportKind::ApplySst => KindV::ApplySst { compare_option, apply_mode, path },
        ImportKind::ImportSst => KindV::ImportSst { compare_option, apply_mode, path },
        ImportKind::ImportXml => KindV::ImportXml { compare_option, apply_mode, path },
    }
}

/// An import command's arguments `compare:mode:path` (the path may hold
/// further colons).
pub open spec fn spec_import(args: Option<Seq<char>>, line: nat, command: Seq<char>, kind: ImportKind)
    -> Result<KindV, ErrV> {
    match require_text(args, line, command, "compare option, apply mode and path"@) {
        Err(e) => Err(e),
        Ok(a) => {
            let (p1, r1) = match split_once(a, ':') {
                Some((x, y)) => (x, Some(y)),
                None => (a, None),
            };
            let (p2, p3) = match r1 {
                Some(r) => match split_once(r, ':') {
                    Some((x, y)) => (Some(x), Some(y)),
                    None => (Some(r), None),
                },
                None => (None, None),
            };
            match byte_param(Some(p1), line, command, "compare option"@) {
                Err(e) => Err(e),
                Ok(co) => match byte_param(p2, line, command, "apply mode"@) {
                    Err(e) => Err(e),
                    Ok(am) => match require_text(p3, line, command, "path"@) {
                        Err(e) => Err(e),
                        Ok(path) => Ok(import_kind(kind, co, am, path)),
                    },
                },
            }
        },
    }
}

/// The arguments `api:flag` of an API translation command.
pub open spec fn spec_api(args: Option<Seq<char>>, line: nat, command: Seq<char>) -> Result<KindV, ErrV> {
    match require_text(args, line, command, "API id and auto-no-translation-tag flag"@) {
        Err(e) => Err(e),
        Ok(a) => {
            let (p1, p2) = match split_once(a, ':') {
                Some((x, y)) => (x, Some(y)),
                None => (a, None),
            };
            match byte_param(Some(p1), line, command, "API id"@) {
                Err(e) => Err(e),
                Ok(api_id) => match require_text(p2, line, command, "auto-no-translation-tag flag"@) {
                    Err(e) => Err(e),
                    Ok(raw) => match delphi_bool(raw) {
                        Some(b) => Ok(KindV::ApiTranslation { api_id, auto_no_trans_tag: b }),
                        None => Err(ErrV::InvalidParameter {
                            line,
                            command,
                            parameter: "auto-no-translation-tag flag"@,
                            value: raw,
                        }),
                    },
                },
            }
        },
    }
}

/// A command `name[:args]`: its name is matched in any case.
pub open spec fn spec_parse_command(c: Seq<char>, line: nat) -> Result<KindV, ErrV> {
    let (name, args) = match split_once(c, ':') {
        Some((n, r)) => (n, Some(r)),
        None => (c, None),
    };
    let k = ascii_lower(trim(name));
    if k == "loadfile"@ {
        match require_text(args, line, name, "path"@) {
            Ok(p) => Ok(KindV::LoadFile { path: p }),
            Err(e) => Err(e),
        }
    } else if k == "closefile"@ {
        Ok(KindV::CloseFile)
    } else if k == "closeall"@ {
        Ok(KindV::CloseAll)
    } else if k == "finalize"@ {
        Ok(KindV::Finalize)
    } else if k == "generatedictionaries"@ {
        Ok(KindV::GenerateDictionaries)
    } else if k == "applysst"@ {
        spec_import(args, line, name, ImportKind::ApplySst)
    } else if k == "importsst"@ {
        spec_import(args, line, name, ImportKind::ImportSst)
    } else if k == "importxml"@ {
        spec_import(args, line, name, ImportKind::ImportXml)
    } else if k == "loadmasters"@ {
        Ok(KindV::LoadMasters)
    } else if k == "savedictionary"@ {
        Ok(KindV::SaveDictionary)
    } else if k == "apitranslation"@ {
        spec_api(args, line, name)
    } else {
        Err(ErrV::UnknownCommand { line, command: trim(name) })
    }
}

/// A trimmed optional parameter (see [`require_text`]).
fn require_param(o: Option<&Vec<char>>, line: usize, command: &Vec<char>, parameter: &'static str)
    -> (r: Result<Vec<char>, CommandProcessorParseError>)
    ensures
        match require_text(match o { Some(v) => Some(v@), None => None }, line as nat, command@, parameter@) {
            Ok(t) => r matches Ok(v) && v@ == t,
            Err(e) => r matches Err(x) && x@ == e,
        },
{
    match o {
        Some(v) => {
            let t = trim_chars(v);
            if t.len() > 0 {
                return Ok(t);
            }
        },
        None => {},
    }
    Err(CommandProcessorParseError::MissingParameter { line, command: string_from_chars(command.as_slice()), parameter })
}

/// A byte parameter (see [`byte_param`]).
fn byte_parameter(o: Option<&Vec<char>>, line: usize, command: &Vec<char>, parameter: &'static str)
    -> (r: Result<u8, CommandProcessorParseError>)
    ensures
        match byte_param(match o { Some(v) => Some(v@), None => None }, line as nat, command@, parameter@) {
            Ok(b) => r == Ok::<u8, CommandProcessorParseError>(b),
            Err(e) => r matches Err(x) && x@ == e,
        },
{
    let t = require_param(o, line, command, parameter)?;
    let tt = trim_chars(&t);
    match parse_u8_text(&tt) {
        Some(b) => Ok(b),
        None => Err(CommandProcessorParseError::InvalidParameter {
            line,
            command: string_from_chars(command.as_slice()),
            parameter,
            value: string_from_chars(t.as_slice()),
        }),
    }
}

/// Whether `v` spells the literal `w`.
fn is_literal(v: &Vec<char>, w: &str) -> (r: bool)
    ensures
        r == (v@ == w@),
{
    let l = chars_of(w);
    chars_eq(v, &l)
}

/// A yes/no value (see [`delphi_bool`]).
pub fn parse_delphi_bool(value: &Vec<char>) -> (r: Option<bool>)
    ensures
        r == delphi_bool(value@),
{
    let l = ascii_lower_vec(&trim_chars(value));
    if is_literal(&l, "1") || is_literal(&l, "true") || is_literal(&l, "yes") || is_literal(&l, "on") {
        Some(true)
    } else if is_literal(&l, "0") || is_literal(&l, "false") || is_literal(&l, "no") || is_literal(&l, "off") {
        Some(false)
    } else {
        None
    }
}

/// The optional view of an optional vector.
pub open spec fn opt_chars(o: Option<Vec<char>>) -> Option<Seq<char>> {
    match o {
        Some(v) => Some(v@),
        None => None,
    }
}

/// `v` split at the first colon: the part before, and what follows if
/// there is a colon.
fn split_colon(v: &Vec<char>) -> (r: (Vec<char>, Option<Vec<char>>))
    ensures
        match split_once(v@, ':') {
            Some((x, y)) => r.0@ == x && opt_chars(r.1) == Some(y),
            None => r.0@ == v@ && r.1 is None,
        },
{
    match split_once_chars(v, ':') {
        Some((a, b)) => (a, Some(b)),
        None => (v.clone(), None),
    }
}

/// An import command's arguments (see [`spec_import`]).
fn parse_import_command(args: Option<&Vec<char>>, line: usize, command: &Vec<char>, kind: ImportKind)
    -> (r: Result<ProcessorCommandKind, CommandProcessorParseError>)
    ensures
        match spec_import(match args { Some(v) => Some(v@), None => None }, line as nat, command@, kind) {
            Ok(k) => r matches Ok(x) && x@ == k,
            Err(e) => r matches Err(x) && x@ == e,
        },
{
    let a = require_param(args, line, command, "compare option, apply mode and path")?;
    let (p1, r1) = split_colon(&a);
    let (p2, p3): (Option<Vec<char>>, Option<Vec<char>>) = match r1 {
        Some(r) => {
            let (x, y) = split_colon(&r);
            (Some(x), y)
        },
        None => (None, None),
    };
    let co = byte_parameter(Some(&p1), line, command, "compare option")?;
    let am = byte_parameter(p2.as_ref(), line, command, "apply mode")?;
    let path = require_param(p3.as_ref(), line, command, "path")?;
    let path = string_from_chars(path.as_slice());
    Ok(match kind {
        ImportKind::ApplySst => ProcessorCommandKind::ApplySst { compare_option: co, apply_mode: am, path },
        ImportKind::ImportSst => ProcessorCommandKind::ImportSst { compare_option: co, apply_mode: am, path },
        ImportKind::ImportXml => ProcessorCommandKind::ImportXml { compare_option: co, apply_mode: am, path },
    })
}

/// The arguments of an API translation command (see [`spec_api`]).
fn parse_api_translation(args: Option<&Vec<char>>, line: usize, command: &Vec<char>)
    -> (r: Result<ProcessorCommandKind, CommandProcessorParseError>)
    ensures
        match spec_api(match args { Some(v) => Some(v@), None => None }, line as nat, command@) {
            Ok(k) => r matches Ok(x) && x@ == k,
            Err(e) => r matches Err(x) && x@ == e,
        },
{
    let a = require_param(args, line, command, "API id and auto-no-translation-tag flag")?;
    let (p1, p2) = split_colon(&a);
    let api_id = byte_parameter(Some(&p1), line, command, "API id")?;
    let raw = require_param(p2.as_ref(), line, command, "auto-no-translation-tag flag")?;
    match parse_delphi_bool(&raw) {
        Some(b) => Ok(ProcessorCommandKind::ApiTranslation { api_id, auto_no_trans_tag: b }),
        None => Err(CommandProcessorParseError::InvalidParameter {
            line,
            command: string_from_chars(command.as_slice()),
            parameter: "auto-no-translation-tag flag",
            value: string_from_chars(raw.as_slice()),
        }),
    }
}

/// A command `name[:args]` (see [`spec_parse_command`]).
pub fn parse_command(command: &Vec<char>, line: usize) -> (r: Result<ProcessorCommandKind, CommandProcessorParseError>)
    ensures
        match spec_parse_command(command@, line as nat) {
            Ok(k) => r matches Ok(x) && x@ == k,
            Err(e) => r matches Err(x) && x@ == e,
        },
{
    let (name, args) = split_colon(command);
    let k = ascii_lower_vec(&trim_chars(&name));
    if is_literal(&k, "loadfile") {
        let p = require_param(args.as_ref(), line, &name, "path")?;
        Ok(ProcessorCommandKind::LoadFile { path: string_from_chars(p.as_slice()) })
    } else if is_literal(&k, "closefile") {
        Ok(ProcessorCommandKind::CloseFile)
    } else if is_literal(&k, "closeall") {
        Ok(ProcessorCommandKind::CloseAll)
    } else if is_literal(&k, "finalize") {
        Ok(ProcessorCommandKind::Finalize)
    } else if is_literal(&k, "generatedictionaries") {
        Ok(ProcessorCommandKind::GenerateDictionaries)
    } else if is_literal(&k, "applysst") {
        parse_import_command(args.as_ref(), line, &name, ImportKind::ApplySst)
    } else if is_literal(&k, "importsst") {
        parse_import_command(args.as_ref(), line, &name, ImportKind::ImportSst)
    } else if is_literal(&k, "importxml") {
        parse_import_command(args.as_ref(), line, &name, ImportKind::ImportXml)
    } else if is_literal(&k, "loadmasters") {
        Ok(ProcessorCommandKind::LoadMasters)
    } else if is_literal(&k, "savedictionary") {
        Ok(ProcessorCommandKind::SaveDictionary)
    } else if is_literal(&k, "apitranslation") {
        parse_api_translation(args.as_ref(), line, &name)
    } else {
        let t = trim_chars(&name);
        Err(CommandProcessorParseError::UnknownCommand { line, command: string_from_chars(t.as_slice()) })
    }
}

/// The parsing state: the script so far and the open rule, if any.
pub struct PState {
    pub script: ScriptV,
    pub current: Option<RuleV>,
}

/// A rule opened on `line`: data folder on, nothing else set.
pub open spec fn new_rule(line: nat) -> RuleV {
    RuleV {
        line,
        lang_source: None,
        lang_dest: None,
        use_data_dir: true,
        export_subfolder: None,
        commands: Seq::empty(),
    }
}

/// What one line does. Blank lines and lines starting with `#` are passed
/// over; `StartRule` and `EndRule` (in any case) open and close a rule;
/// `Command=` adds a command to the open rule; `name=value` sets a rule
/// setting inside a rule and a global folder outside; other lines are
/// passed over.
pub open spec fn step_line(st: PState, raw: Seq<char>, line: nat) -> Result<PState, ErrV> {
    let t = trim(raw);
    if t.len() == 0 || (raw.len() > 0 && raw[0] == '#') {
        Ok(st)
    } else if ascii_lower(t) == "startrule"@ {
        if st.current is Some {
            Err(ErrV::NestedStartRule { line })
        } else {
            Ok(PState { current: Some(new_rule(line)), ..st })
        }
    } else if ascii_lower(t) == "endrule"@ {
        match st.current {
            None => Err(ErrV::UnexpectedEndRule { line }),
            Some(r) => Ok(PState { script: ScriptV { rules: st.script.rules.push(r), ..st.script }, current: None }),
        }
    } else if t.len() >= 8 && ascii_lower(t.take(8)) == "command="@ {
        match st.current {
            None => Err(ErrV::CommandOutsideRule { line }),
            Some(r) => match spec_parse_command(trim(t.skip(8)), line) {
                Err(e) => Err(e),
                Ok(k) => Ok(PState {
                    current: Some(RuleV { commands: r.commands.push(CommandV { line, kind: k }), ..r }),
                    ..st
                }),
            },
        }
    } else {
        match split_once(t, '=') {
            None => Ok(st),
            Some((n0, v0)) => {
                let n = ascii_lower(trim(n0));
                let v = trim(v0);
                match st.current {
                    Some(r) => if n == "langsource"@ {
                        Ok(PState { current: Some(RuleV { lang_source: non_empty(v), ..r }), ..st })
                    } else if n == "langdest"@ {
                        Ok(PState { current: Some(RuleV { lang_dest: non_empty(v), ..r }), ..st })
                    } else if n == "usedatadir"@ {
                        Ok(PState {
                            current: Some(RuleV {
                                use_data_dir: match delphi_bool(v) { Some(b) => b, None => true },
                                ..r
                            }),
                            ..st
                        })
                    } else if n == "exportsubfolder"@ {
                        Ok(PState { current: Some(RuleV { export_subfolder: non_empty(v), ..r }), ..st })
                    } else {
                        Ok(st)
                    },
                    None => if n == "global_vocabfolder"@ {
                        Ok(PState { script: ScriptV {
                            globals: GlobalsV { vocab_folder: non_empty(v), ..st.script.globals }, ..st.script }, ..st })
                    } else if n == "global_importfolder"@ {
                        Ok(PState { script: ScriptV {
                            globals: GlobalsV { import_folder: non_empty(v), ..st.script.globals }, ..st.script }, ..st })
                    } else if n == "global_exportfolder"@ {
                        Ok(PState { script: ScriptV {
                            globals: GlobalsV { export_folder: non_empty(v), ..st.script.globals }, ..st.script }, ..st })
                    } else {
                        Ok(st)
                    },
                }
            },
        }
    }
}

/// The state after the lines from `k` on (lines are numbered from 1), or
/// the first refusal.
pub open spec fn run_lines(ls: Seq<Seq<char>>, k: int, st: PState) -> Result<PState, ErrV>
    decreases ls.len() - k,
{
    if k < 0 || k >= ls.len() {
        Ok(st)
    } else {
        match step_line(st, ls[k], (k + 1) as nat) {
            Ok(s2) => run_lines(ls, k + 1, s2),
            Err(e) => Err(e),
        }
    }
}

/// Nothing parsed yet.
pub open spec fn init_state() -> PState {
    PState {
        script: ScriptV {
            globals: GlobalsV { vocab_folder: None, import_folder: None, export_folder: None },
            rules: Seq::empty(),
        },
        current: None,
    }
}

/// The script a text holds, or why it is refused; a rule still open at
/// the end is refused with its `StartRule` line.
pub open spec fn spec_parse_script(text: Seq<char>) -> Result<ScriptV, ErrV> {
    match run_lines(lines(text), 0, init_state()) {
        Ok(st) => match st.current {
            Some(r) => Err(ErrV::UnterminatedRule { line: r.line }),
            None => Ok(st.script),
        },
        Err(e) => Err(e),
    }
}

/// The trimmed text, or `None` when empty (see [`non_empty`]).
fn non_empty_string(v: &Vec<char>) -> (r: Option<String>)
    ensures
        opt_text(r) == non_empty(v@),
{
    let t = trim_chars(v);
    if t.len() == 0 { None } else { Some(string_from_chars(t.as_slice())) }
}

/// The view of an optional open rule.
pub open spec fn opt_rule(o: Option<CommandRule>) -> Option<RuleV> {
    match o {
        Some(r) => Some(r@),
        None => None,
    }
}

proof fn lemma_rules_push(rs: Seq<CommandRule>, r: CommandRule)
    ensures
        rs.push(r).map_values(|x: CommandRule| x@) == rs.map_values(|x: CommandRule| x@).push(r@),
{
    assert(rs.push(r).map_values(|x: CommandRule| x@) =~= rs.map_values(|x: CommandRule| x@).push(r@));
}

proof fn lemma_commands_push(cs: Seq<ProcessorCommand>, c: ProcessorCommand)
    ensures
        cs.push(c).map_values(|x: ProcessorCommand| x@) == cs.map_values(|x: ProcessorCommand| x@).push(c@),
{
    assert(cs.push(c).map_values(|x: ProcessorCommand| x@) =~= cs.map_values(|x: ProcessorCommand| x@).push(c@));
}

/// Parses a processor script (see [`spec_parse_script`]).
pub fn parse_command_processor(text: &str) -> (r: Result<CommandProcessorScript, CommandProcessorParseError>)
    ensures
        match spec_parse_script(text@) {
            Ok(sv) => r matches Ok(s) && s@ == sv,
            Err(ev) => r matches Err(e) && e@ == ev,
        },
{
    let ls = lines_of(text);
    let mut script = CommandProcessorScript {
        globals: CommandProcessorGlobals { vocab_folder: None, import_folder: None, export_folder: None },
        rules: Vec::new(),
    };
    let mut current: Option<CommandRule> = None;
    let ghost init = init_state();
    assert(script@.rules =~= Seq::<RuleV>::empty());
    let ghost total = run_lines(lines(text@), 0, init);
    let start_rule = chars_of("startrule");
    let end_rule = chars_of("endrule");
    let command_eq = chars_of("command=");
    let mut k: usize = 0;
    while k < ls.len()
        invariant
            k <= ls@.len(),
            ls@.len() == lines(text@).len(),
            forall|j: int| 0 <= j < ls@.len() ==> #[trigger] ls@[j]@ == lines(text@)[j],
            start_rule@ == "startrule"@,
            end_rule@ == "endrule"@,
            command_eq@ == "command="@,
            init == init_state(),
            total == run_lines(lines(text@), 0, init),
            run_lines(lines(text@), k as int, PState { script: script@, current: opt_rule(current) }) == total,
        decreases ls@.len() - k,
    {
        let raw = &ls[k];
        let line = k + 1;
        let ghost st = PState { script: script@, current: opt_rule(current) };
        let ghost next = step_line(st, raw@, line as nat);
        assert(run_lines(lines(text@), k as int, st) == match next {
            Ok(s2) => run_lines(lines(text@), k + 1, s2),
            Err(e) => Err(e),
        });
        let t = trim_chars(raw);
        if t.len() == 0 || (raw.len() > 0 && raw[0] == '#') {
            k = k + 1;
            continue;
        }
        let lower = ascii_lower_vec(&t);
        if chars_eq(&lower, &start_rule) {
            if current.is_some() {
                return Err(CommandProcessorParseError::NestedStartRule { line });
            }
            current = Some(CommandRule {
                line,
                lang_source: None,
                lang_dest: None,
                use_data_dir: true,
                export_subfolder: None,
                commands: Vec::new(),
            });
            assert(opt_rule(current) == Some(new_rule(line as nat))) by {
                assert(current.unwrap().commands@.map_values(|x: ProcessorCommand| x@) =~= Seq::<CommandV>::empty());
            }
            k = k + 1;
            continue;
        }
        if chars_eq(&lower, &end_rule) {
            match current {
                None => {
                    return Err(CommandProcessorParseError::UnexpectedEndRule { line });
                },
                Some(rule) => {
                    proof {
                        lemma_rules_push(script.rules@, rule);
                    }
                    script.rules.push(rule);
                    current = None;
                },
            }
            k = k + 1;
            continue;
        }
        let is_command = t.len() >= 8 && {
            let head = slice_chars(&t, 0, 8);
            assert(head@ =~= t@.take(8));
            let hl = ascii_lower_vec(&head);
            chars_eq(&hl, &command_eq)
        };
        if is_command {
            let rest = slice_chars(&t, 8, t.len());
            assert(rest@ =~= t@.skip(8));
            let ct = trim_chars(&rest);
            match current {
                None => {
                    return Err(CommandProcessorParseError::CommandOutsideRule { line });
                },
                Some(mut rule) => {
                    let kind = parse_command(&ct, line)?;
                    let cmd = ProcessorCommand { line, kind };
                    proof {
                        lemma_commands_push(rule.commands@, cmd);
                    }
                    rule.commands.push(cmd);
                    current = Some(rule);
                },
            }
            k = k + 1;
            continue;
        }
        match split_once_chars(&t, '=') {
            None => {},
            Some((n0, v0)) => {
                let n = ascii_lower_vec(&trim_chars(&n0));
                let v = trim_chars(&v0);
                match current {
                    Some(mut rule) => {
                        if is_literal(&n, "langsource") {
                            rule.lang_source = non_empty_string(&v);
                        } else if is_literal(&n, "langdest") {
                            rule.lang_dest = non_empty_string(&v);
                        } else if is_literal(&n, "usedatadir") {
                            rule.use_data_dir = match parse_delphi_bool(&v) {
                                Some(b) => b,
                                None => true,
                            };
                        } else if is_literal(&n, "exportsubfolder") {
                            rule.export_subfolder = non_empty_string(&v);
                        }
                        current = Some(rule);
                    },
                    None => {
                        if is_literal(&n, "global_vocabfolder") {
                            script.globals.vocab_folder = non_empty_string(&v);
                        } else if is_literal(&n, "global_importfolder") {
                            script.globals.import_folder = non_empty_string(&v);
                        } else if is_literal(&n, "global_exportfolder") {
                            script.globals.export_folder = non_empty_string(&v);
                        }
                    },
                }
            },
        }
        k = k + 1;
    }
    match current {
        Some(rule) => Err(CommandProcessorParseError::UnterminatedRule { line: rule.line }),
        None => Ok(script),
    }
}

/// The name of a command kind.
pub open spec fn kind_name(k: KindV) -> Seq<char> {
    match k {
        KindV::LoadFile { .. } => "LoadFile"@,
        KindV::CloseFile => "CloseFile"@,
        KindV::CloseAll => "CloseAll"@,
        KindV::Finalize => "Finalize"@,
        KindV::GenerateDictionaries => "GenerateDictionaries"@,
        KindV::ApplySst { .. } => "ApplySst"@,
        KindV::ImportSst { .. } => "ImportSst"@,
        KindV::ImportXml { .. } => "ImportXml"@,
        KindV::LoadMasters => "LoadMasters"@,
        KindV::SaveDictionary => "SaveDictionary"@,
        KindV::ApiTranslation { .. } => "ApiTranslation"@,
    }
}

impl ProcessorCommandKind {
    /// The command's name as written in scripts.
    pub fn name(&self) -> (r: &'static str)
        ensures
            r@ == kind_name(self@),
    {
        match self {
            ProcessorCommandKind::LoadFile { .. } => "LoadFile",
            ProcessorCommandKind::CloseFile => "CloseFile",
            ProcessorCommandKind::CloseAll => "CloseAll",
            ProcessorCommandKind::Finalize => "Finalize",
            ProcessorCommandKind::GenerateDictionaries => "GenerateDictionaries",
            ProcessorCommandKind::ApplySst { .. } => "ApplySst",
            ProcessorCommandKind::ImportSst { .. } => "ImportSst",
            ProcessorCommandKind::ImportXml { .. } => "ImportXml",
            ProcessorCommandKind::LoadMasters => "LoadMasters",
            ProcessorCommandKind::SaveDictionary => "SaveDictionary",
            ProcessorCommandKind::ApiTranslation { .. } => "ApiTranslation",
        }
    }
}

/// What to do after a failure: stop the run, or go on.
#[derive(Debug, Clone, Copy, PartialEq, Eq, Structural)]
pub enum CommandErrorPolicy {
    Stop,
    Continue,
}

impl Default for CommandErrorPolicy {
    fn default() -> (r: Self)
        ensures
            r == CommandErrorPolicy::Stop,
    {
        CommandErrorPolicy::Stop
    }
}

/// A failure met while running: where it happened and its message.
#[derive(Debug, Clone, PartialEq, Eq)]
pub struct CommandExecutionFailure {
    pub rule_number: usize,
    pub command_number: Option<usize>,
    pub line: usize,
    pub command: Option<&'static str>,
    pub message: String,
}

/// The account of a run.
#[derive(Debug, Clone, PartialEq, Eq, Default)]
pub struct CommandExecutionReport {
    pub rules_started: usize,
    pub rules_completed: usize,
    pub commands_succeeded: usize,
    pub failures: Vec<CommandExecutionFailure>,
    pub stopped_early: bool,
}

/// The next thing a run asks of its host (positions count from 0; the
/// numbers the host is told count from 1).
#[derive(Debug, Clone, Copy, PartialEq, Eq, Structural)]
pub enum ExecStep {
    BeginRule { rule_index: usize },
    ExecuteCommand { rule_index: usize, command_index: usize },
    EndRule { rule_index: usize },
    Finished,
}

/// A run of a script: its policy, the next step, whether the current rule
/// failed, and the account so far.
pub struct CommandExecution {
    pub policy: CommandErrorPolicy,
    pub next: ExecStep,
    pub rule_failed: bool,
    pub report: CommandExecutionReport,
}

/// The step after the commands of rule `ri` from position `ci` on were
/// asked for: the next command, or the end of the rule.
pub open spec fn after_command(script: ScriptV, ri: int, ci: int) -> ExecStep {
    if ci < script.rules[ri].commands.len() {
        ExecStep::ExecuteCommand { rule_index: ri as usize, command_index: ci as usize }
    } else {
        ExecStep::EndRule { rule_index: ri as usize }
    }
}

/// The step that starts rule `ri`, or the end of the run.
pub open spec fn rule_start(script: ScriptV, ri: int) -> ExecStep {
    if ri < script.rules.len() { ExecStep::BeginRule { rule_index: ri as usize } } else { ExecStep::Finished }
}

/// Whether a step names a rule and command of the script.
pub open spec fn step_fits(script: ScriptV, s: ExecStep) -> bool {
    match s {
        ExecStep::BeginRule { rule_index } => rule_index < script.rules.len(),
        ExecStep::ExecuteCommand { rule_index, command_index } =>
            rule_index < script.rules.len() && command_index < script.rules[rule_index as int].commands.len(),
        ExecStep::EndRule { rule_index } => rule_index < script.rules.len(),
        ExecStep::Finished => true,
    }
}

/// A failure as plain values.
pub struct FailureV {
    pub rule_number: nat,
    pub command_number: Option<nat>,
    pub line: nat,
    pub command: Option<Seq<char>>,
    pub message: Seq<char>,
}

impl View for CommandExecutionFailure {
    type V = FailureV;

    open spec fn view(&self) -> FailureV {
        FailureV {
            rule_number: self.rule_number as nat,
            command_number: match self.command_number { Some(n) => Some(n as nat), None => None },
            line: self.line as nat,
            command: match self.command { Some(c) => Some(c@), None => None },
            message: self.message@,
        }
    }
}

/// The failures of a report as plain values.
pub open spec fn failures_view(fs: Seq<CommandExecutionFailure>) -> Seq<FailureV> {
    fs.map_values(|f: CommandExecutionFailure| f@)
}


/// `f` is run `o` after the host answered its current step with `outcome`
/// (see [`CommandExecution::record`]).
pub open spec fn recorded(sv: ScriptV, o: CommandExecution, f: CommandExecution, outcome: Result<(), String>) -> bool {
    let stop = o.policy == CommandErrorPolicy::Stop;
    match o.next {
        ExecStep::BeginRule { rule_index } => {
            let ri = rule_index as int;
            let rule = sv.rules[ri];
            &&& f.report.rules_started == o.report.rules_started + 1
            &&& f.report.rules_completed == o.report.rules_completed
            &&& f.report.commands_succeeded == o.report.commands_succeeded
            &&& match outcome {
                Ok(()) => f.next == after_command(sv, ri, 0) && !f.rule_failed
                    && failures_view(f.report.failures@) == failures_view(o.report.failures@)
                    && f.report.stopped_early == o.report.stopped_early,
                Err(m) => failures_view(f.report.failures@) == failures_view(o.report.failures@).push(FailureV {
                        rule_number: (ri + 1) as nat, command_number: None, line: rule.line, command: None,
                        message: m@,
                    })
                    && (stop ==> f.next == ExecStep::Finished && f.report.stopped_early)
                    && (!stop ==> f.next == rule_start(sv, ri + 1) && f.report.stopped_early == o.report.stopped_early),
            }
        },
        ExecStep::ExecuteCommand { rule_index, command_index } => {
            let ri = rule_index as int;
            let ci = command_index as int;
            let c = sv.rules[ri].commands[ci];
            &&& f.report.rules_started == o.report.rules_started
            &&& f.report.rules_completed == o.report.rules_completed
            &&& match outcome {
                Ok(()) => f.next == after_command(sv, ri, ci + 1) && f.rule_failed == o.rule_failed
                    && f.report.commands_succeeded == o.report.commands_succeeded + 1
                    && failures_view(f.report.failures@) == failures_view(o.report.failures@)
                    && f.report.stopped_early == o.report.stopped_early,
                Err(m) => f.rule_failed && f.report.commands_succeeded == o.report.commands_succeeded
                    && failures_view(f.report.failures@) == failures_view(o.report.failures@).push(FailureV {
                        rule_number: (ri + 1) as nat, command_number: Some((ci + 1) as nat), line: c.line,
                        command: Some(kind_name(c.kind)), message: m@,
                    })
                    && (stop ==> f.next == ExecStep::Finished && f.report.stopped_early)
                    && (!stop ==> f.next == after_command(sv, ri, ci + 1)
                        && f.report.stopped_early == o.report.stopped_early),
            }
        },
        ExecStep::EndRule { rule_index } => {
            let ri = rule_index as int;
            let rule = sv.rules[ri];
            &&& f.report.rules_started == o.report.rules_started
            &&& f.report.commands_succeeded == o.report.commands_succeeded
            &&& match outcome {
                Ok(()) => f.next == rule_start(sv, ri + 1)
                    && f.report.rules_completed == o.report.rules_completed + (if o.rule_failed { 0int } else { 1int })
                    && failures_view(f.report.failures@) == failures_view(o.report.failures@)
                    && f.report.stopped_early == o.report.stopped_early,
                Err(m) => f.report.rules_completed == o.report.rules_completed
                    && failures_view(f.report.failures@) == failures_view(o.report.failures@).push(FailureV {
                        rule_number: (ri + 1) as nat, command_number: None, line: rule.line, command: None,
                        message: m@,
                    })
                    && (stop ==> f.next == ExecStep::Finished && f.report.stopped_early)
                    && (!stop ==> f.next == rule_start(sv, ri + 1)
                        && f.report.stopped_early == o.report.stopped_early),
            }
        },
        ExecStep::Finished => true,
    }
}

impl CommandExecution {
    /// A run of `script` about to begin its first rule.
    pub fn start(script: &CommandProcessorScript, policy: CommandErrorPolicy) -> (r: Self)
        ensures
            r.policy == policy,
            r.next == rule_start(script@, 0),
            !r.rule_failed,
            r.report.rules_started == 0 && r.report.rules_completed == 0 && r.report.commands_succeeded == 0,
            r.report.failures@.len() == 0,
            !r.report.stopped_early,
    {
        let next = if script.rules.len() > 0 { ExecStep::BeginRule { rule_index: 0 } } else { ExecStep::Finished };
        CommandExecution {
            policy,
            next,
            rule_failed: false,
            report: CommandExecutionReport {
                rules_started: 0,
                rules_completed: 0,
                commands_succeeded: 0,
                failures: Vec::new(),
                stopped_early: false,
            },
        }
    }

    /// Takes the host's answer to the current step and moves on. A rule
    /// whose start fails is left (the run stops under [`CommandErrorPolicy::Stop`]);
    /// a failed command or rule end marks the rule failed and, under `Stop`,
    /// ends the run. A rule counts as completed when nothing in it failed.
    pub fn record(&mut self, script: &CommandProcessorScript, outcome: Result<(), String>)
        requires
            step_fits(script@, old(self).next),
            old(self).next != ExecStep::Finished,
            old(self).report.rules_started < usize::MAX,
            old(self).report.rules_completed < usize::MAX,
            old(self).report.commands_succeeded < usize::MAX,
        ensures
            step_fits(script@, final(self).next),
            final(self).policy == old(self).policy,
            recorded(script@, *old(self), *final(self), outcome),
    {
        let stop = self.policy == CommandErrorPolicy::Stop;
        let nrules = script.rules.len();
        let ghost old_fails = self.report.failures@;
        match self.next {
            ExecStep::BeginRule { rule_index } => {
                let rule = &script.rules[rule_index];
                self.report.rules_started = self.report.rules_started + 1;
                match outcome {
                    Ok(()) => {
                        self.rule_failed = false;
                        self.next = if rule.commands.len() > 0 {
                            ExecStep::ExecuteCommand { rule_index, command_index: 0 }
                        } else {
                            ExecStep::EndRule { rule_index }
                        };
                    },
                    Err(message) => {
                        let fl = CommandExecutionFailure {
                            rule_number: rule_index + 1,
                            command_number: None,
                            line: rule.line,
                            command: None,
                            message,
                        };
                        self.report.failures.push(fl);
                        proof {
                            assert(failures_view(self.report.failures@) =~= failures_view(old_fails).push(fl@));
                        }
                        if stop {
                            self.report.stopped_early = true;
                            self.next = ExecStep::Finished;
                        } else {
                            self.next = if rule_index + 1 < script.rules.len() {
                                ExecStep::BeginRule { rule_index: rule_index + 1 }
                            } else {
                                ExecStep::Finished
                            };
                        }
                    },
                }
            },
            ExecStep::ExecuteCommand { rule_index, command_index } => {
                let rule = &script.rules[rule_index];
                let ncmds = rule.commands.len();
                let cmd = &rule.commands[command_index];
                let after = if command_index + 1 < rule.commands.len() {
                    ExecStep::ExecuteCommand { rule_index, command_index: command_index + 1 }
                } else {
                    ExecStep::EndRule { rule_index }
                };
                match outcome {
                    Ok(()) => {
                        self.report.commands_succeeded = self.report.commands_succeeded + 1;
                        self.next = after;
                    },
                    Err(message) => {
                        self.rule_failed = true;
                        let fl = CommandExecutionFailure {
                            rule_number: rule_index + 1,
                            command_number: Some(command_index + 1),
                            line: cmd.line,
                            command: Some(cmd.kind.name()),
                            message,
                        };
                        self.report.failures.push(fl);
                        proof {
                            assert(failures_view(self.report.failures@) =~= failures_view(old_fails).push(fl@));
                        }
                        if stop {
                            self.report.stopped_early = true;
                            self.next = ExecStep::Finished;
                        } else {
                            self.next = after;
                        }
                    },
                }
            },
            ExecStep::EndRule { rule_index } => {
                let rule = &script.rules[rule_index];
                let start_next = if rule_index + 1 < script.rules.len() {
                    ExecStep::BeginRule { rule_index: rule_index + 1 }
                } else {
                    ExecStep::Finished
                };
                match outcome {
                    Ok(()) => {
                        if !self.rule_failed {
                            self.report.rules_completed = self.report.rules_completed + 1;
                        }
                        self.next = start_next;
                    },
                    Err(message) => {
                        self.rule_failed = true;
                        let fl = CommandExecutionFailure {
                            rule_number: rule_index + 1,
                            command_number: None,
                            line: rule.line,
                            command: None,
                            message,
                        };
                        self.report.failures.push(fl);
                        proof {
                            assert(failures_view(self.report.failures@) =~= failures_view(old_fails).push(fl@));
                        }
                        if stop {
                            self.report.stopped_early = true;
                            self.next = ExecStep::Finished;
                        } else {
                            self.next = start_next;
                        }
                    },
                }
            },
            ExecStep::Finished => {},
        }
    }
}

/// Under [`CommandErrorPolicy::Stop`], a run holds at most one failure; it
/// holds one exactly when it stopped early, and then it is finished.
pub open spec fn stop_keeps_one_failure(e: CommandExecution) -> bool {
    e.policy == CommandErrorPolicy::Stop ==> {
        &&& e.report.failures@.len() <= 1
        &&& (e.report.failures@.len() == 1 <==> e.report.stopped_early)
        &&& (e.report.stopped_early ==> e.next == ExecStep::Finished)
    }
}

/// Every step of a run under `Stop` keeps [`stop_keeps_one_failure`]: the
/// first failure ends the run.
pub proof fn law_stop_policy_ends_at_first_failure(sv: ScriptV, o: CommandExecution, f: CommandExecution,
    outcome: Result<(), String>)
    requires
        stop_keeps_one_failure(o),
        o.next != ExecStep::Finished,
        recorded(sv, o, f, outcome),
        f.policy == o.policy,
    ensures
        stop_keeps_one_failure(f),
{
    if o.policy == CommandErrorPolicy::Stop {
        assert(failures_view(f.report.failures@).len() == f.report.failures@.len());
        assert(failures_view(o.report.failures@).len() == o.report.failures@.len());
    }
}

} // verus!
