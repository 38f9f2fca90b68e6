//! Component tags for miscellaneous items (DEF_UI / FallUI): the names of
//! the components an item breaks down into, and its weight, are written
//! into its name through a template.
use vstd::prelude::*;
use std::collections::{HashMap, HashSet};
use crate::types::{GameId, SkyString, SkyStringView};
use crate::esp::record_tree::{EspFile, EspRecord, EspGrup, FieldView, fields_view, grups_records, first_with_form};
use crate::header_processor::{push_lit, push_str, push_hex8_upper, hex8_upper};
use crate::text::{chars_of, chars_eq, string_from_chars, trim, trim_chars, extend_chars, occurs_at};

verus! {

/// A component of an item: its form id, how many and its display name.
#[derive(Debug, Clone, PartialEq)]
pub struct ComponentRef {
    pub form_id: u32,
    pub count: u32,
    pub name: String,
}

/// A component as plain values.
pub struct ComponentV {
    pub form_id: u32,
    pub count: u32,
    pub name: Seq<char>,
}

impl View for ComponentRef {
    type V = ComponentV;

    open spec fn view(&self) -> ComponentV {
        ComponentV { form_id: self.form_id, count: self.count, name: self.name@ }
    }
}

/// The views of a list of components.
pub open spec fn components_view(cs: Seq<ComponentRef>) -> Seq<ComponentV> {
    cs.map_values(|c: ComponentRef| c@)
}

/// How tags are generated.
#[derive(Debug, Clone)]
pub struct DefUiOptions {
    /// Build on the source text, not on the current translation.
    pub use_source_for_string: bool,
    /// Name components by their source text, not their translation.
    pub use_source_for_components: bool,
    /// Strip an old tag from the base name with `regex_clean_base`.
    pub clean_base: bool,
    /// Strip prefixes from component names with `regex_clean_compo`.
    pub clean_compo: bool,
    /// Mark component quantities with the quantity indicators.
    pub add_quantity: bool,
    /// Keep only the first character of each component name.
    pub use_first_char: bool,
    /// Put a single component in front as `[Component] `.
    pub do_auto_header: bool,
    pub regex_clean_base: String,
    pub regex_clean_compo: String,
    /// The tag template: `%BASE%`, `%COMPOS%` and `%WEIGHT%` are replaced.
    pub template: String,
    /// The template used when the item has a positive weight.
    pub template_with_weight: Option<String>,
    pub component_separator: String,
    pub quantity_indicator1: String,
    pub quantity_indicator2: String,
    pub ignore_list: Vec<String>,
    /// Which strings are processed: `all`, `untranslated` or `selection`.
    pub scope: String,
}

/// The options as plain values.
pub struct DefUiOptionsV {
    pub use_source_for_string: bool,
    pub use_source_for_components: bool,
    pub clean_base: bool,
    pub clean_compo: bool,
    pub add_quantity: bool,
    pub use_first_char: bool,
    pub do_auto_header: bool,
    pub regex_clean_base: Seq<char>,
    pub regex_clean_compo: Seq<char>,
    pub template: Seq<char>,
    pub template_with_weight: Option<Seq<char>>,
    pub component_separator: Seq<char>,
    pub quantity_indicator1: Seq<char>,
    pub quantity_indicator2: Seq<char>,
    pub ignore_list: Seq<Seq<char>>,
    pub scope: Seq<char>,
}

impl View for DefUiOptions {
    type V = DefUiOptionsV;

    open spec fn view(&self) -> DefUiOptionsV {
        DefUiOptionsV {
            use_source_for_string: self.use_source_for_string,
            use_source_for_components: self.use_source_for_components,
            clean_base: self.clean_base,
            clean_compo: self.clean_compo,
            add_quantity: self.add_quantity,
            use_first_char: self.use_first_char,
            do_auto_header: self.do_auto_header,
            regex_clean_base: self.regex_clean_base@,
            regex_clean_compo: self.regex_clean_compo@,
            template: self.template@,
            template_with_weight: crate::esp::parser::opt_text(self.template_with_weight),
            component_separator: self.component_separator@,
            quantity_indicator1: self.quantity_indicator1@,
            quantity_indicator2: self.quantity_indicator2@,
            ignore_list: crate::header_processor::texts(self.ignore_list@),
            scope: self.scope@,
        }
    }
}

/// The pattern that strips a `{{{...}}}` tag from a base name.
pub open spec fn curly_base_pattern() -> Seq<char> { "^(.+)\\{\\{\\{.+\\}\\}\\}$"@ }

/// The pattern that strips a `(...)` tag from a base name.
pub open spec fn round_base_pattern() -> Seq<char> { "^(.+)\\(.+\\)$"@ }

/// The pattern that strips a bracketed prefix from a component name.
pub open spec fn compo_pattern() -> Seq<char> { "^[\\[\\(\\{\\|].+?[\\|\\]\\}\\)](.+)$"@ }

/// The default options: curly-brace tags with the weight when there is one.
pub open spec fn default_options() -> DefUiOptionsV {
    DefUiOptionsV {
        use_source_for_string: false,
        use_source_for_components: true,
        clean_base: true,
        clean_compo: true,
        add_quantity: false,
        use_first_char: false,
        do_auto_header: false,
        regex_clean_base: curly_base_pattern(),
        regex_clean_compo: compo_pattern(),
        template: "%BASE% {{{%COMPOS%}}}"@,
        template_with_weight: Some("%BASE% {{{%WEIGHT%lb, %COMPOS%}}}"@),
        component_separator: ", "@,
        quantity_indicator1: "*"@,
        quantity_indicator2: "**"@,
        ignore_list: Seq::empty(),
        scope: "all"@,
    }
}

/// The options for a game: Fallout 76 uses round brackets; every other game
/// uses the defaults.
pub open spec fn game_options(game: GameId) -> DefUiOptionsV {
    match game {
        GameId::Fallout76 => DefUiOptionsV {
            regex_clean_base: round_base_pattern(),
            template: "%BASE% (%COMPOS%)"@,
            template_with_weight: Some("%BASE% (%WEIGHT%lb, %COMPOS%)"@),
            ..default_options()
        },
        _ => default_options(),
    }
}

impl Default for DefUiOptions {
    fn default() -> (r: Self)
        ensures
            r@ == default_options(),
    {
        let r = DefUiOptions {
            use_source_for_string: false,
            use_source_for_components: true,
            clean_base: true,
            clean_compo: true,
            add_quantity: false,
            use_first_char: false,
            do_auto_header: false,
            regex_clean_base: string_from_chars(chars_of("^(.+)\\{\\{\\{.+\\}\\}\\}$").as_slice()),
            regex_clean_compo: string_from_chars(chars_of("^[\\[\\(\\{\\|].+?[\\|\\]\\}\\)](.+)$").as_slice()),
            template: string_from_chars(chars_of("%BASE% {{{%COMPOS%}}}").as_slice()),
            template_with_weight: Some(string_from_chars(chars_of("%BASE% {{{%WEIGHT%lb, %COMPOS%}}}").as_slice())),
            component_separator: string_from_chars(chars_of(", ").as_slice()),
            quantity_indicator1: string_from_chars(chars_of("*").as_slice()),
            quantity_indicator2: string_from_chars(chars_of("**").as_slice()),
            ignore_list: Vec::new(),
            scope: string_from_chars(chars_of("all").as_slice()),
        };
        assert(r@.ignore_list =~= Seq::<Seq<char>>::empty());
        r
    }
}

impl DefUiOptions {
    /// The preset options for a game (see [`game_options`]).
    pub fn for_game(game: GameId) -> (r: Self)
        ensures
            r@ == game_options(game),
    {
        let mut r = DefUiOptions::default();
        match game {
            GameId::Fallout76 => {
                r.regex_clean_base = string_from_chars(chars_of("^(.+)\\(.+\\)$").as_slice());
                r.template = string_from_chars(chars_of("%BASE% (%COMPOS%)").as_slice());
                r.template_with_weight = Some(string_from_chars(chars_of("%BASE% (%WEIGHT%lb, %COMPOS%)").as_slice()));
            },
            _ => {},
        }
        r
    }
}

/// The (form id, quantity) pairs of the first `n` items of a component
/// list whose items are `size` bytes: an item whose first eight bytes lie in
/// the data gives the two 32-bit little-endian numbers there, kept unless
/// the form id is 0.
pub open spec fn cvpa_upto(b: Seq<u8>, size: int, n: int) -> Seq<(u32, u32)>
    decreases n,
{
    if n <= 0 {
        Seq::empty()
    } else {
        let prev = cvpa_upto(b, size, n - 1);
        let off = (n - 1) * size;
        if off + 8 <= b.len() && crate::bytes::le_u32(b, off) != 0 {
            prev.push((crate::bytes::le_u32(b, off), crate::bytes::le_u32(b, off + 4)))
        } else {
            prev
        }
    }
}

/// The pairs of a whole component list: none when the item size is 0 or
/// the data is shorter than one item; else those of its `len / size` items.
pub open spec fn cvpa_items(b: Seq<u8>, size: int) -> Seq<(u32, u32)> {
    if size <= 0 || b.len() < size { Seq::empty() } else { cvpa_upto(b, size, (b.len() as int) / size) }
}

/// Decodes a component list (CVPA or MCQP data) of `item_size`-byte items
/// (see [`cvpa_items`]).
pub fn parse_cvpa_buffer(buffer: &[u8], item_size: usize) -> (r: Vec<(u32, u32)>)
    ensures
        r@ == cvpa_items(buffer@, item_size as int),
{
    let mut result: Vec<(u32, u32)> = Vec::new();
    if item_size == 0 || buffer.len() < item_size {
        return result;
    }
    let blen = buffer.len();
    let count = blen / item_size;
    proof {
        vstd::arithmetic::div_mod::lemma_fundamental_div_mod(buffer@.len() as int, item_size as int);
    }
    let mut i: usize = 0;
    while i < count
        invariant
            i <= count,
            item_size > 0,
            count == (buffer@.len() as int) / (item_size as int),
            count * item_size <= buffer@.len(),
            blen == buffer@.len(),
            result@ == cvpa_upto(buffer@, item_size as int, i as int),
        decreases count - i,
    {
        proof {
            vstd::arithmetic::mul::lemma_mul_inequality(i + 1, count as int, item_size as int);
            assert((i + 1) * item_size == i * item_size + item_size) by (nonlinear_arith);
            assert(i * item_size + item_size <= buffer@.len());
        }
        let offset = i * item_size;
        if offset <= buffer.len() && buffer.len() - offset >= 8 {
            let form_id = crate::bytes::read_u32_le(buffer, offset);
            let qty = crate::bytes::read_u32_le(buffer, offset + 4);
            if form_id != 0 {
                result.push((form_id, qty));
            }
        }
        i = i + 1;
    }
    result
}

/// Capture group 1 of the first match of a regular expression in a text:
/// `None` when the pattern does not compile, nothing matches or the group
/// takes no part in the match.
pub uninterp spec fn regex_group1(pattern: Seq<char>, text: Seq<char>) -> Option<Seq<char>>;

/// `regex::Regex::new(pattern)` and, when it compiles, `Regex::captures`
/// on `text` and the text of group 1. The result is named by
/// [`regex_group1`]; what a pattern matches is left to the regex crate.
#[verifier::external_body]
fn regex_first_group(pattern: &str, text: &str) -> (r: Option<String>)
    ensures
        crate::esp::parser::opt_text(r) == regex_group1(pattern@, text@),
{
    match regex::Regex::new(pattern) {
        Ok(re) => match re.captures(text) {
            Some(caps) => match caps.get(1) {
                Some(m) => Some(m.as_str().to_string()),
                None => None,
            },
            None => None,
        },
        Err(_) => None,
    }
}

/// The base name of an item: the source when asked for or when the
/// translation is blank, else the translation; when cleaning is on and the
/// cleaning pattern is set and captures, the trimmed group 1 instead.
pub open spec fn base_name(source: Seq<char>, translation: Seq<char>, o: DefUiOptionsV) -> Seq<char> {
    let b = if o.use_source_for_string || trim(translation).len() == 0 { source } else { translation };
    if o.clean_base && o.regex_clean_base.len() > 0 {
        match regex_group1(o.regex_clean_base, b) {
            Some(m) => trim(m),
            None => b,
        }
    } else {
        b
    }
}

/// The quantity mark of a component, when marks are on: for Fallout 76 the
/// codes 62410 and 62411 give the first and second indicator; for other
/// games more than 5 gives the second and more than 2 the first.
pub open spec fn quantity_tag(count: u32, o: DefUiOptionsV, game: GameId) -> Seq<char> {
    if !o.add_quantity {
        Seq::empty()
    } else if game == GameId::Fallout76 {
        if count == 62410 { o.quantity_indicator1 } else if count == 62411 { o.quantity_indicator2 } else { Seq::empty() }
    } else {
        if count > 5 { o.quantity_indicator2 } else if count > 2 { o.quantity_indicator1 } else { Seq::empty() }
    }
}

/// The label of a component: its name, cleaned like the base name with the
/// component pattern, cut to its first character when asked for, followed
/// by its quantity mark.
pub open spec fn component_label(c: ComponentV, o: DefUiOptionsV, game: GameId) -> Seq<char> {
    let n1 = if o.clean_compo && o.regex_clean_compo.len() > 0 {
        match regex_group1(o.regex_clean_compo, c.name) {
            Some(m) => trim(m),
            None => c.name,
        }
    } else {
        c.name
    };
    let n2 = if o.use_first_char && n1.len() > 0 { seq![n1[0]] } else { n1 };
    n2 + quantity_tag(c.count, o, game)
}

/// Texts joined by a separator.
pub open spec fn joined(ws: Seq<Seq<char>>, sep: Seq<char>) -> Seq<char>
    decreases ws.len(),
{
    if ws.len() == 0 {
        Seq::empty()
    } else if ws.len() == 1 {
        ws[0]
    } else {
        joined(ws.drop_last(), sep) + sep + ws.last()
    }
}

/// Every occurrence of a non-empty pattern replaced, left to right and
/// without overlap, as `str::replace` does.
pub open spec fn replace_all(s: Seq<char>, pat: Seq<char>, rep: Seq<char>) -> Seq<char>
    decreases s.len(),
{
    if s.len() == 0 {
        Seq::empty()
    } else if pat.len() > 0 && pat.len() <= s.len() && s.take(pat.len() as int) == pat {
        rep + replace_all(s.skip(pat.len() as int), pat, rep)
    } else {
        seq![s[0]] + replace_all(s.skip(1), pat, rep)
    }
}

/// The weight of an item as the tag needs it: whether it is positive, and
/// its printed form.
#[derive(Debug, Clone)]
pub struct ItemWeight {
    pub positive: bool,
    pub label: String,
}

/// The tagged name of an item: its base name alone when it has no
/// components; else the template (the one with the weight when the weight
/// is positive and there is one) with `%BASE%`, `%WEIGHT%` and `%COMPOS%`
/// replaced in that order, the component labels joined by the separator,
/// and, when asked for and there is a single component, `[label] ` in front.
pub open spec fn def_ui_text(source: Seq<char>, translation: Seq<char>, cs: Seq<ComponentV>, positive: bool,
    label: Seq<char>, o: DefUiOptionsV, game: GameId) -> Seq<char>
{
    let base = base_name(source, translation, o);
    if cs.len() == 0 {
        base
    } else {
        let parts = Seq::new(cs.len(), |i: int| component_label(cs[i], o, game));
        let tmpl = if o.template_with_weight is Some && positive { o.template_with_weight->0 } else { o.template };
        let r = replace_all(replace_all(replace_all(tmpl, "%BASE%"@, base), "%WEIGHT%"@, label), "%COMPOS%"@, joined(parts, o.component_separator));
        if o.do_auto_header && cs.len() == 1 { "["@ + parts[0] + "] "@ + r } else { r }
    }
}

/// Replaces every occurrence of a non-empty pattern (see [`replace_all`]).
fn replace_text(s: &Vec<char>, pat: &Vec<char>, rep: &Vec<char>) -> (r: Vec<char>)
    requires
        pat@.len() > 0,
    ensures
        r@ == replace_all(s@, pat@, rep@),
{
    let mut out: Vec<char> = Vec::new();
    let mut i: usize = 0;
    assert(s@.skip(0) =~= s@);
    while i < s.len()
        invariant
            i <= s@.len(),
            pat@.len() > 0,
            out@ + replace_all(s@.skip(i as int), pat@, rep@) == replace_all(s@, pat@, rep@),
        decreases s@.len() - i,
    {
        let ghost rest = s@.skip(i as int);
        if occurs_at(s, i, pat) {
            assert(rest.take(pat@.len() as int) =~= s@.subrange(i as int, i + pat@.len()));
            assert(rest.skip(pat@.len() as int) =~= s@.skip(i + pat@.len()));
            crate::text::extend_chars(&mut out, rep);
            i = i + pat.len();
        } else {
            assert(rest.take(pat@.len() as int) =~= s@.subrange(i as int, i + pat@.len()) || pat@.len() > rest.len());
            assert(rest.skip(1) =~= s@.skip(i + 1));
            out.push(s[i]);
            i = i + 1;
        }
    }
    assert(s@.skip(i as int) =~= Seq::<char>::empty());
    out
}

/// The cleaned form of a name: the trimmed group 1 of `pattern` when it
/// captures, else the name.
fn cleaned(pattern: &String, name: Vec<char>) -> (r: Vec<char>)
    ensures
        r@ == (match regex_group1(pattern@, name@) { Some(m) => trim(m), None => name@ }),
{
    let text = string_from_chars(name.as_slice());
    match regex_first_group(pattern.as_str(), text.as_str()) {
        Some(m) => trim_chars(&chars_of(m.as_str())),
        None => name,
    }
}

/// The base name of an item (see [`base_name`]).
fn base_name_of(source: &str, translation: &str, opts: &DefUiOptions) -> (r: Vec<char>)
    ensures
        r@ == base_name(source@, translation@, opts@),
{
    let t = chars_of(translation);
    let b = if opts.use_source_for_string || trim_chars(&t).len() == 0 { chars_of(source) } else { t };
    if opts.clean_base && opts.regex_clean_base.as_str().unicode_len() > 0 {
        cleaned(&opts.regex_clean_base, b)
    } else {
        b
    }
}

/// The label of a component (see [`component_label`]).
fn component_label_of(c: &ComponentRef, opts: &DefUiOptions, game: GameId) -> (r: Vec<char>)
    ensures
        r@ == component_label(c@, opts@, game),
{
    let name = chars_of(c.name.as_str());
    let n1 = if opts.clean_compo && opts.regex_clean_compo.as_str().unicode_len() > 0 {
        cleaned(&opts.regex_clean_compo, name)
    } else {
        name
    };
    let mut out: Vec<char> = if opts.use_first_char && n1.len() > 0 {
        let mut v: Vec<char> = Vec::new();
        v.push(n1[0]);
        assert(v@ =~= seq![n1@[0]]);
        v
    } else {
        n1
    };
    if opts.add_quantity {
        match game {
            GameId::Fallout76 => {
                if c.count == 62410 {
                    push_str(&mut out, &opts.quantity_indicator1);
                } else if c.count == 62411 {
                    push_str(&mut out, &opts.quantity_indicator2);
                }
            },
            _ => {
                if c.count > 5 {
                    push_str(&mut out, &opts.quantity_indicator2);
                } else if c.count > 2 {
                    push_str(&mut out, &opts.quantity_indicator1);
                }
            },
        }
    }
    assert(out@ =~= component_label(c@, opts@, game));
    out
}

/// The tagged name of an item (see [`def_ui_text`]).
pub fn format_def_ui_string(source: &str, translation: &str, components: &[ComponentRef], weight: &ItemWeight,
    opts: &DefUiOptions, game: GameId) -> (r: String)
    ensures
        r@ == def_ui_text(source@, translation@, components_view(components@), weight.positive, weight.label@, opts@, game),
{
    let base = base_name_of(source, translation, opts);
    let ghost cs = components_view(components@);
    if components.len() == 0 {
        return string_from_chars(base.as_slice());
    }
    let ghost parts = Seq::new(cs.len(), |i: int| component_label(cs[i], opts@, game));
    let mut first: Vec<char> = Vec::new();
    let mut compos: Vec<char> = Vec::new();
    let mut i: usize = 0;
    while i < components.len()
        invariant
            i <= components@.len(),
            cs == components_view(components@),
            parts == Seq::new(cs.len(), |i: int| component_label(cs[i], opts@, game)),
            compos@ == joined(parts.take(i as int), opts.component_separator@),
            i > 0 ==> first@ == parts[0],
        decreases components@.len() - i,
    {
        let label = component_label_of(&components[i], opts, game);
        assert(parts.take(i + 1).drop_last() =~= parts.take(i as int));
        if i > 0 {
            push_str(&mut compos, &opts.component_separator);
        } else {
            first = chars_of(string_from_chars(label.as_slice()).as_str());
        }
        extend_chars(&mut compos, &label);
        i = i + 1;
    }
    assert(parts.take(cs.len() as int) =~= parts);
    let tmpl: &String = match &opts.template_with_weight {
        Some(t) => if weight.positive { t } else { &opts.template },
        None => &opts.template,
    };
    let t0 = chars_of(tmpl.as_str());
    proof {
        reveal_strlit("%BASE%");
        reveal_strlit("%WEIGHT%");
        reveal_strlit("%COMPOS%");
    }
    let t1 = replace_text(&t0, &chars_of("%BASE%"), &base);
    let t2 = replace_text(&t1, &chars_of("%WEIGHT%"), &chars_of(weight.label.as_str()));
    let t3 = replace_text(&t2, &chars_of("%COMPOS%"), &compos);
    if opts.do_auto_header && components.len() == 1 {
        let mut out: Vec<char> = Vec::new();
        push_lit(&mut out, "[");
        extend_chars(&mut out, &first);
        push_lit(&mut out, "] ");
        extend_chars(&mut out, &t3);
        string_from_chars(out.as_slice())
    } else {
        string_from_chars(t3.as_slice())
    }
}

/// `CMPO`, `MISC`, `FULL`, `CVPA`, `MCQP` and `DATA` as bytes.
pub open spec fn sig_cmpo() -> Seq<u8> { seq![0x43u8, 0x4D, 0x50, 0x4F] }
pub open spec fn sig_misc() -> Seq<u8> { seq![0x4Du8, 0x49, 0x53, 0x43] }
pub open spec fn sig_full() -> Seq<u8> { seq![0x46u8, 0x55, 0x4C, 0x4C] }
pub open spec fn sig_cvpa() -> Seq<u8> { seq![0x43u8, 0x56, 0x50, 0x41] }
pub open spec fn sig_mcqp() -> Seq<u8> { seq![0x4Du8, 0x43, 0x51, 0x50] }
pub open spec fn sig_data() -> Seq<u8> { seq![0x44u8, 0x41, 0x54, 0x41] }

/// The last of the first `n` strings that names a component (a `CMPO`
/// record's `FULL`) with form id `f`.
pub open spec fn compo_string(ss: Seq<SkyStringView>, f: u32, n: int) -> Option<int>
    decreases n,
{
    if n <= 0 || n > ss.len() {
        None
    } else if ss[n - 1].record_sig@ == sig_cmpo() && ss[n - 1].field_sig@ == sig_full() && ss[n - 1].esp_ptr.form_id == f {
        Some(n - 1)
    } else {
        compo_string(ss, f, n - 1)
    }
}

/// The name of component `f`: from its naming string, the source or, when
/// asked for the translation, the translation unless it is blank; without a
/// naming string, `0x` and its eight upper-case hex digits.
pub open spec fn compo_name(ss: Seq<SkyStringView>, f: u32, use_source: bool) -> Seq<char> {
    match compo_string(ss, f, ss.len() as int) {
        Some(i) => if use_source || trim(ss[i].translation).len() == 0 { ss[i].source } else { ss[i].translation },
        None => "0x"@ + hex8_upper(f),
    }
}

/// The components listed by a component-list field's data.
pub open spec fn field_components(ss: Seq<SkyStringView>, buf: Seq<u8>, use_source: bool) -> Seq<ComponentV> {
    cvpa_items(buf, 8).map_values(|p: (u32, u32)| ComponentV { form_id: p.0, count: p.1, name: compo_name(ss, p.0, use_source) })
}

/// The components listed by the first `n` fields of a record: those of its
/// `CVPA` and `MCQP` fields, in order.
pub open spec fn record_components(ss: Seq<SkyStringView>, fs: Seq<FieldView>, use_source: bool, n: int) -> Seq<ComponentV>
    decreases n,
{
    if n <= 0 || n > fs.len() {
        Seq::empty()
    } else if fs[n - 1].name == sig_cvpa() || fs[n - 1].name == sig_mcqp() {
        record_components(ss, fs, use_source, n - 1) + field_components(ss, fs[n - 1].buffer, use_source)
    } else {
        record_components(ss, fs, use_source, n - 1)
    }
}

/// The weight bits of a record among its first `n` fields: bytes 4 to 8 of
/// the last `DATA` field of at least 8 bytes, or 0.
pub open spec fn record_weight(fs: Seq<FieldView>, n: int) -> u32
    decreases n,
{
    if n <= 0 || n > fs.len() {
        0
    } else if fs[n - 1].name == sig_data() && fs[n - 1].buffer.len() >= 8 {
        crate::bytes::le_u32(fs[n - 1].buffer, 4)
    } else {
        record_weight(fs, n - 1)
    }
}

/// Whether a string is the name of a miscellaneous item (`MISC` `FULL`).
pub open spec fn is_misc_name(s: SkyStringView) -> bool {
    s.record_sig@ == sig_misc() && s.field_sig@ == sig_full()
}

/// Whether an item name is processed: the scope `selection` with a
/// selection keeps only selected ids; the scope `untranslated` keeps only
/// names whose translation is blank.
pub open spec fn in_scope(s: SkyStringView, o: DefUiOptionsV, sel: Option<Set<u32>>) -> bool {
    &&& !(sel is Some && o.scope == "selection"@ && !sel->0.contains(s.id))
    &&& !(o.scope == "untranslated"@ && trim(s.translation).len() > 0)
}

/// How many of the first `n` strings name miscellaneous items.
pub open spec fn misc_count(ss: Seq<SkyStringView>, n: int) -> nat
    decreases n,
{
    if n <= 0 || n > ss.len() { 0 } else { misc_count(ss, n - 1) + if is_misc_name(ss[n - 1]) { 1nat } else { 0nat } }
}

/// The positions, among the first `n` strings, of the item names that are
/// processed, in order.
pub open spec fn selected_items(ss: Seq<SkyStringView>, o: DefUiOptionsV, sel: Option<Set<u32>>, n: int) -> Seq<int>
    decreases n,
{
    if n <= 0 || n > ss.len() {
        Seq::empty()
    } else if is_misc_name(ss[n - 1]) && in_scope(ss[n - 1], o, sel) {
        selected_items(ss, o, sel, n - 1).push(n - 1)
    } else {
        selected_items(ss, o, sel, n - 1)
    }
}

/// The record an item name belongs to: the first record of the plugin with
/// its form id.
pub open spec fn item_record(esp: Option<Seq<EspGrup>>, f: u32) -> Option<EspRecord> {
    match esp {
        Some(gs) => first_with_form(grups_records(gs, gs.len() as int), f),
        None => None,
    }
}

/// An item to tag: the position of its name, its components and the bits
/// of its weight.
#[derive(Debug, Clone)]
pub struct DefUiCandidate {
    pub string_index: usize,
    pub components: Vec<ComponentRef>,
    pub weight_bits: u32,
}

/// `c` is the item at position `i`: the components and weight of its record,
/// or none and 0 without one.
pub open spec fn candidate_is(c: DefUiCandidate, ss: Seq<SkyStringView>, esp: Option<Seq<EspGrup>>, o: DefUiOptionsV, i: int) -> bool {
    &&& c.string_index == i
    &&& match item_record(esp, ss[i].esp_ptr.form_id) {
        Some(r) => {
            &&& components_view(c.components@) == record_components(ss, fields_view(r.fields@), o.use_source_for_components, r.fields@.len() as int)
            &&& c.weight_bits == record_weight(fields_view(r.fields@), r.fields@.len() as int)
        },
        None => c.components@.len() == 0 && c.weight_bits == 0,
    }
}

/// The plugin's groups, when there is a plugin.
pub open spec fn esp_groups(e: Option<&EspFile>) -> Option<Seq<EspGrup>> {
    match e { Some(f) => Some(f.top_level_grups@), None => None }
}

/// The selection as a set, when there is one.
pub open spec fn selection(sel: Option<&HashSet<u32>>) -> Option<Set<u32>> {
    match sel { Some(h) => Some(h@), None => None }
}

/// The form id of each component name (`CMPO` `FULL`), mapped to the
/// position of the last such string.
fn compo_index(strings: &[SkyString]) -> (r: HashMap<u32, usize>)
    ensures
        forall|f: u32| #[trigger] r@.contains_key(f) == (compo_string(crate::esp::delocalize::strings_view(strings@), f, strings@.len() as int) is Some),
        forall|f: u32| r@.contains_key(f) ==> Some(#[trigger] r@[f] as int) == compo_string(crate::esp::delocalize::strings_view(strings@), f, strings@.len() as int),
{
    let ghost ss = crate::esp::delocalize::strings_view(strings@);
    let mut m: HashMap<u32, usize> = HashMap::new();
    let mut i: usize = 0;
    while i < strings.len()
        invariant
            i <= strings@.len(),
            ss == crate::esp::delocalize::strings_view(strings@),
            forall|f: u32| #[trigger] m@.contains_key(f) == (compo_string(ss, f, i as int) is Some),
            forall|f: u32| m@.contains_key(f) ==> Some(#[trigger] m@[f] as int) == compo_string(ss, f, i as int),
        decreases strings@.len() - i,
    {
        assert(ss[i as int] == strings@[i as int]@);
        let s = &strings[i];
        if crate::esp::parser::sig_is(&s.record_sig, 0x43, 0x4D, 0x50, 0x4F) && crate::esp::parser::sig_is(&s.field_sig, 0x46, 0x55, 0x4C, 0x4C) {
            m.insert(s.esp_ptr.form_id, i);
        }
        i = i + 1;
    }
    m
}

/// The name of a component (see [`compo_name`]).
fn compo_name_of(strings: &[SkyString], index: &HashMap<u32, usize>, f: u32, use_source: bool) -> (r: String)
    requires
        forall|g: u32| #[trigger] index@.contains_key(g) == (compo_string(crate::esp::delocalize::strings_view(strings@), g, strings@.len() as int) is Some),
        forall|g: u32| index@.contains_key(g) ==> Some(#[trigger] index@[g] as int) == compo_string(crate::esp::delocalize::strings_view(strings@), g, strings@.len() as int),
    ensures
        r@ == compo_name(crate::esp::delocalize::strings_view(strings@), f, use_source),
{
    let ghost ss = crate::esp::delocalize::strings_view(strings@);
    match index.get(&f) {
        Some(i) => {
            let i = *i;
            proof {
                assert(index@.contains_key(f));
                lemma_compo_string_range(ss, f, ss.len() as int);
            }
            assert(ss[i as int] == strings@[i as int]@);
            let s = &strings[i];
            if use_source || trim_chars(&chars_of(s.translation.as_str())).len() == 0 {
                string_from_chars(chars_of(s.source.as_str()).as_slice())
            } else {
                string_from_chars(chars_of(s.translation.as_str()).as_slice())
            }
        },
        None => {
            assert(!index@.contains_key(f));
            let mut out: Vec<char> = Vec::new();
            push_lit(&mut out, "0x");
            push_hex8_upper(&mut out, f);
            string_from_chars(out.as_slice())
        },
    }
}

proof fn lemma_compo_string_range(ss: Seq<SkyStringView>, f: u32, n: int)
    ensures
        compo_string(ss, f, n) matches Some(i) ==> 0 <= i < n && i < ss.len(),
    decreases n,
{
    if n > 0 && n <= ss.len() {
        lemma_compo_string_range(ss, f, n - 1);
    }
}

/// The components and weight bits of a record (see [`record_components`]
/// and [`record_weight`]).
fn record_items(strings: &[SkyString], index: &HashMap<u32, usize>, rec: &EspRecord, use_source: bool)
    -> (r: (Vec<ComponentRef>, u32))
    requires
        forall|g: u32| #[trigger] index@.contains_key(g) == (compo_string(crate::esp::delocalize::strings_view(strings@), g, strings@.len() as int) is Some),
        forall|g: u32| index@.contains_key(g) ==> Some(#[trigger] index@[g] as int) == compo_string(crate::esp::delocalize::strings_view(strings@), g, strings@.len() as int),
    ensures
        components_view(r.0@) == record_components(crate::esp::delocalize::strings_view(strings@), fields_view(rec.fields@), use_source, rec.fields@.len() as int),
        r.1 == record_weight(fields_view(rec.fields@), rec.fields@.len() as int),
{
    let ghost ss = crate::esp::delocalize::strings_view(strings@);
    let ghost fs = fields_view(rec.fields@);
    let mut comps: Vec<ComponentRef> = Vec::new();
    let mut weight: u32 = 0;
    let mut k: usize = 0;
    while k < rec.fields.len()
        invariant
            k <= rec.fields@.len(),
            ss == crate::esp::delocalize::strings_view(strings@),
            fs == fields_view(rec.fields@),
            forall|g: u32| #[trigger] index@.contains_key(g) == (compo_string(ss, g, strings@.len() as int) is Some),
            forall|g: u32| index@.contains_key(g) ==> Some(#[trigger] index@[g] as int) == compo_string(ss, g, strings@.len() as int),
            components_view(comps@) == record_components(ss, fs, use_source, k as int),
            weight == record_weight(fs, k as int),
        decreases rec.fields@.len() - k,
    {
        let field = &rec.fields[k];
        assert(fs[k as int] == field@);
        let name = &field.header.name;
        if crate::esp::parser::sig_is(name, 0x43, 0x56, 0x50, 0x41) || crate::esp::parser::sig_is(name, 0x4D, 0x43, 0x51, 0x50) {
            let parsed = parse_cvpa_buffer(field.buffer.as_slice(), 8);
            let ghost before = components_view(comps@);
            let ghost fc = field_components(ss, field.buffer@, use_source);
            let mut t: usize = 0;
            while t < parsed.len()
                invariant
                    t <= parsed@.len(),
                    parsed@ == cvpa_items(field.buffer@, 8),
                    fc == field_components(ss, field.buffer@, use_source),
                    ss == crate::esp::delocalize::strings_view(strings@),
                    forall|g: u32| #[trigger] index@.contains_key(g) == (compo_string(ss, g, strings@.len() as int) is Some),
                    forall|g: u32| index@.contains_key(g) ==> Some(#[trigger] index@[g] as int) == compo_string(ss, g, strings@.len() as int),
                    components_view(comps@) == before + fc.take(t as int),
                decreases parsed@.len() - t,
            {
                let (form_id, count) = parsed[t];
                let cname = compo_name_of(strings, index, form_id, use_source);
                let ghost pc = comps@;
                comps.push(ComponentRef { form_id, count, name: cname });
                assert(fc.take(t + 1) =~= fc.take(t as int).push(fc[t as int]));
                assert(components_view(comps@) =~= components_view(pc).push(comps@.last()@));
                t = t + 1;
            }
            assert(fc.take(fc.len() as int) =~= fc);
        } else if crate::esp::parser::sig_is(name, 0x44, 0x41, 0x54, 0x41) && field.buffer.len() >= 8 {
            weight = crate::bytes::read_u32_le(field.buffer.as_slice(), 4);
        }
        k = k + 1;
    }
    (comps, weight)
}

/// Whether a text is the given literal.
fn text_is(s: &String, lit: &str) -> (r: bool)
    ensures
        r == (s@ == lit@),
{
    chars_eq(&chars_of(s.as_str()), &chars_of(lit))
}

/// Whether the name at position `i` is processed (see [`in_scope`]).
fn in_scope_of(s: &SkyString, opts: &DefUiOptions, selected_ids: Option<&HashSet<u32>>) -> (r: bool)
    ensures
        r == in_scope(s@, opts@, selection(selected_ids)),
{
    match selected_ids {
        Some(set) => {
            if text_is(&opts.scope, "selection") && !set.contains(&s.id) {
                return false;
            }
        },
        None => {},
    }
    if text_is(&opts.scope, "untranslated") && trim_chars(&chars_of(s.translation.as_str())).len() > 0 {
        return false;
    }
    true
}

/// The items to tag and how many item names there are: every processed
/// item name (see [`selected_items`]) with the components and weight of its
/// record (see [`candidate_is`]), and the number of `MISC` `FULL` strings
/// (its low 32 bits).
pub fn def_ui_candidates(strings: &[SkyString], esp_file: Option<&EspFile>, opts: &DefUiOptions,
    selected_ids: Option<&HashSet<u32>>) -> (r: (Vec<DefUiCandidate>, u32))
    ensures
        r.1 == misc_count(crate::esp::delocalize::strings_view(strings@), strings@.len() as int) as u32,
        r.0@.len() == selected_items(crate::esp::delocalize::strings_view(strings@), opts@, selection(selected_ids), strings@.len() as int).len(),
        forall|j: int| 0 <= j < r.0@.len() ==> candidate_is(#[trigger] r.0@[j], crate::esp::delocalize::strings_view(strings@),
            esp_groups(esp_file), opts@,
            selected_items(crate::esp::delocalize::strings_view(strings@), opts@, selection(selected_ids), strings@.len() as int)[j]),
{
    let ghost ss = crate::esp::delocalize::strings_view(strings@);
    let ghost sel = selection(selected_ids);
    let index = compo_index(strings);
    let mut out: Vec<DefUiCandidate> = Vec::new();
    let mut total: u64 = 0;
    let mut i: usize = 0;
    while i < strings.len()
        invariant
            i <= strings@.len(),
            ss == crate::esp::delocalize::strings_view(strings@),
            sel == selection(selected_ids),
            total <= i,
            forall|g: u32| #[trigger] index@.contains_key(g) == (compo_string(ss, g, strings@.len() as int) is Some),
            forall|g: u32| index@.contains_key(g) ==> Some(#[trigger] index@[g] as int) == compo_string(ss, g, strings@.len() as int),
            total == misc_count(ss, i as int),
            out@.len() == selected_items(ss, opts@, sel, i as int).len(),
            forall|j: int| 0 <= j < out@.len() ==> candidate_is(#[trigger] out@[j], ss, esp_groups(esp_file), opts@,
                selected_items(ss, opts@, sel, i as int)[j]),
        decreases strings@.len() - i,
    {
        assert(ss[i as int] == strings@[i as int]@);
        let s = &strings[i];
        if crate::esp::parser::sig_is(&s.record_sig, 0x4D, 0x49, 0x53, 0x43) && crate::esp::parser::sig_is(&s.field_sig, 0x46, 0x55, 0x4C, 0x4C) {
            total = total + 1;
            if in_scope_of(s, opts, selected_ids) {
                let found: Option<&EspRecord> = match esp_file {
                    Some(esp) => esp.find_record_by_form_id(s.esp_ptr.form_id),
                    None => None,
                };
                let (components, weight_bits) = match found {
                    Some(rec) => record_items(strings, &index, rec, opts.use_source_for_components),
                    None => (Vec::new(), 0u32),
                };
                let c = DefUiCandidate { string_index: i, components, weight_bits };
                assert(candidate_is(c, ss, esp_groups(esp_file), opts@, i as int));
                let ghost before = out@;
                out.push(c);
                proof {
                    let si = selected_items(ss, opts@, sel, i + 1);
                    assert(si == selected_items(ss, opts@, sel, i as int).push(i as int));
                    assert forall|j: int| 0 <= j < out@.len() implies candidate_is(#[trigger] out@[j], ss, esp_groups(esp_file), opts@, si[j]) by {
                        if j < before.len() {
                            assert(out@[j] == before[j]);
                        }
                    }
                }
            }
        }
        i = i + 1;
    }
    (out, #[verifier::truncate] (total as u32))
}

/// The text a name has now: its translation, or its source while it has
/// none.
pub open spec fn current_text(s: SkyStringView) -> Seq<char> {
    if s.translation.len() > 0 { s.translation } else { s.source }
}

/// The changes for the first `n` items: for each item whose tagged name
/// (with weight `ws[j]`) differs from its current text, its id, the tagged
/// name and the current text.
pub open spec fn mutations_upto(ss: Seq<SkyStringView>, cs: Seq<DefUiCandidate>, ws: Seq<ItemWeight>, o: DefUiOptionsV,
    game: GameId, n: int) -> Seq<(u32, Seq<char>, Seq<char>)>
    decreases n,
{
    if n <= 0 || n > cs.len() {
        Seq::empty()
    } else {
        let prev = mutations_upto(ss, cs, ws, o, game, n - 1);
        let s = ss[cs[n - 1].string_index as int];
        let t = def_ui_text(s.source, s.translation, components_view(cs[n - 1].components@), ws[n - 1].positive,
            ws[n - 1].label@, o, game);
        if t != current_text(s) { prev.push((s.id, t, current_text(s))) } else { prev }
    }
}

/// The views of a list of changes.
pub open spec fn mutations_view(v: Seq<(u32, String, String)>) -> Seq<(u32, Seq<char>, Seq<char>)> {
    v.map_values(|m: (u32, String, String)| (m.0, m.1@, m.2@))
}

/// The changes that tagging makes (see [`mutations_upto`]), given the
/// weight of each item.
pub fn def_ui_mutations(strings: &[SkyString], candidates: &Vec<DefUiCandidate>, weights: &Vec<ItemWeight>,
    opts: &DefUiOptions, game: GameId) -> (r: Vec<(u32, String, String)>)
    requires
        weights@.len() == candidates@.len(),
        forall|j: int| 0 <= j < candidates@.len() ==> (#[trigger] candidates@[j]).string_index < strings@.len(),
    ensures
        mutations_view(r@) == mutations_upto(crate::esp::delocalize::strings_view(strings@), candidates@, weights@, opts@, game,
            candidates@.len() as int),
{
    let ghost ss = crate::esp::delocalize::strings_view(strings@);
    let mut out: Vec<(u32, String, String)> = Vec::new();
    let mut j: usize = 0;
    while j < candidates.len()
        invariant
            j <= candidates@.len(),
            weights@.len() == candidates@.len(),
            forall|t: int| 0 <= t < candidates@.len() ==> (#[trigger] candidates@[t]).string_index < strings@.len(),
            ss == crate::esp::delocalize::strings_view(strings@),
            mutations_view(out@) == mutations_upto(ss, candidates@, weights@, opts@, game, j as int),
        decreases candidates@.len() - j,
    {
        let c = &candidates[j];
        assert(c.string_index < strings@.len());
        let s = &strings[c.string_index];
        assert(ss[c.string_index as int] == s@);
        let t = format_def_ui_string(s.source.as_str(), s.translation.as_str(), c.components.as_slice(), &weights[j], opts, game);
        let cur = if s.translation.as_str().unicode_len() > 0 {
            string_from_chars(chars_of(s.translation.as_str()).as_slice())
        } else {
            string_from_chars(chars_of(s.source.as_str()).as_slice())
        };
        assert(c.components@ == candidates@[j as int].components@);
        if !chars_eq(&chars_of(t.as_str()), &chars_of(cur.as_str())) {
            let ghost before = out@;
            out.push((s.id, t, cur));
            assert(mutations_view(out@) =~= mutations_view(before).push((s@.id, t@, cur@)));
        }
        j = j + 1;
    }
    out
}

} // verus!
