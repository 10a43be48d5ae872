use vstd::prelude::*;
use crate::color::{self, color_escape};
use crate::text::string_of;
use crate::default::{LOG_DESTINATION, LOG_FORMAT, READ_BUFFER_SIZE, TCP_CONNECT_TIMEOUT, TERMINAL_TYPE, TIMESTAMP_FORMAT};

verus! {

/// What a `Coloring` holds, as plain values.
pub struct ColoringView {
    pub color: Seq<char>,
    pub regex: Seq<Seq<char>>,
    pub underlined: Option<bool>,
    pub ignore_whitespace: Option<bool>,
}

/// One `[[colorings]]` table of the configuration file: a color, the patterns that it
/// highlights, and two optional switches.
pub struct Coloring {
    color: String,
    regex: Vec<String>,
    underlined: Option<bool>,
    ignore_whitespace: Option<bool>,
}

/// The characters of each string of `v`.
pub open spec fn strings_view(v: Seq<String>) -> Seq<Seq<char>> {
    v.map_values(|s: String| s@)
}

impl View for Coloring {
    type V = ColoringView;

    closed spec fn view(&self) -> ColoringView {
        ColoringView {
            color: self.color@,
            regex: strings_view(self.regex@),
            underlined: self.underlined,
            ignore_whitespace: self.ignore_whitespace,
        }
    }
}

impl Coloring {
    pub fn new(
        color: String,
        regex: Vec<String>,
        underlined: Option<bool>,
        ignore_whitespace: Option<bool>,
    ) -> (r: Self)
        ensures
            r@ == (ColoringView {
                color: color@,
                regex: strings_view(regex@),
                underlined,
                ignore_whitespace,
            }),
    {
        Coloring { color, regex, underlined, ignore_whitespace }
    }

    pub fn color(&self) -> (r: &str)
        ensures
            r@ == self@.color,
    {
        self.color.as_str()
    }

    /// The patterns, in the order the file gives them.
    pub fn regex(&self) -> (r: &Vec<String>)
        ensures
            strings_view(r@) == self@.regex,
    {
        &self.regex
    }

    /// Whether the color is underlined; off unless the file says otherwise.
    pub fn underlined(&self) -> (r: bool)
        ensures
            r == (self@.underlined == Some(true)),
    {
        match self.underlined {
            Some(b) => b,
            None => false,
        }
    }

    /// Whether a match goes on across spaces; off unless the file says otherwise.
    pub fn ignore_whitespace(&self) -> (r: bool)
        ensures
            r == (self@.ignore_whitespace == Some(true)),
    {
        match self.ignore_whitespace {
            Some(b) => b,
            None => false,
        }
    }
}

} // verus!

verus! {

#[verifier::external_type_specification]
#[verifier::external_body]
pub struct ExRegex(regex::Regex);

/// Whether `regex::Regex::new` accepts the pattern: its syntax is valid and the compiled
/// program stays within the crate's default size limit.
pub uninterp spec fn regex_compiles(pattern: Seq<char>) -> bool;

/// The text of the leftmost-first match of the pattern in the text, as the whole-match group
/// of `regex::Regex::captures` gives it; `None` when the pattern does not match.
pub uninterp spec fn regex_match(pattern: Seq<char>, text: Seq<char>) -> Option<Seq<char>>;

/// A compiled regular expression together with the pattern it was compiled from.
pub struct Pattern {
    source: String,
    compiled: regex::Regex,
}

impl View for Pattern {
    type V = Seq<char>;

    closed spec fn view(&self) -> Seq<char> {
        self.source@
    }
}

/// The view of an optional string.
pub open spec fn opt_chars(s: Option<String>) -> Option<Seq<char>> {
    match s {
        Some(s) => Some(s@),
        None => None,
    }
}

impl Pattern {
    /// Compiles `source` with `regex::Regex::new`. The contract claims that the call succeeds
    /// exactly when the pattern compiles, and that the pattern kept is `source`; `Pattern` has
    /// no other constructor, so its compiled form is always that of its source.
    #[verifier::external_body]
    pub(crate) fn compile(source: &str) -> (r: Option<Pattern>)
        ensures
            r is Some == regex_compiles(source@),
            r matches Some(p) ==> p@ == source@,
    {
        match regex::Regex::new(source) {
            Ok(compiled) => Some(Pattern { source: source.to_string(), compiled }),
            Err(_) => None,
        }
    }

    /// The whole match of `regex::Regex::captures` on `text` (group 0, which the crate
    /// documents as always present in a match), as a string. The contract claims only that
    /// the result is the named match of this pattern on this text.
    #[verifier::external_body]
    pub(crate) fn captures(&self, text: &str) -> (r: Option<String>)
        ensures
            opt_chars(r) == regex_match(self@, text@),
    {
        match self.compiled.captures(text) {
            Some(cap) => Some(cap.get(0).unwrap().as_str().to_string()),
            None => None,
        }
    }

    /// The pattern's source text.
    pub fn as_str(&self) -> (r: &str)
        ensures
            r@ == self@,
    {
        self.source.as_str()
    }
}

/// What a syntax definition holds: the escape sequence of its color, its patterns, and
/// whether a match goes on across spaces.
pub struct SyntaxView {
    pub color: Seq<char>,
    pub patterns: Seq<Seq<char>>,
    pub ignore_whitespace: bool,
}

/// A highlighting rule: the escape sequence to color matches with, and the patterns.
pub struct SyntaxDefinition {
    color: String,
    regex: Vec<Pattern>,
    ignore_whitespace: bool,
}

/// The source of each pattern.
pub open spec fn patterns_view(v: Seq<Pattern>) -> Seq<Seq<char>> {
    v.map_values(|p: Pattern| p@)
}

impl View for SyntaxDefinition {
    type V = SyntaxView;

    closed spec fn view(&self) -> SyntaxView {
        SyntaxView {
            color: self.color@,
            patterns: patterns_view(self.regex@),
            ignore_whitespace: self.ignore_whitespace,
        }
    }
}

impl SyntaxDefinition {
    fn new(color: String, regex: Vec<Pattern>, ignore_whitespace: bool) -> (r: Self)
        ensures
            r@ == (SyntaxView { color: color@, patterns: patterns_view(regex@), ignore_whitespace }),
    {
        SyntaxDefinition { color, regex, ignore_whitespace }
    }

    pub fn color(&self) -> (r: &str)
        ensures
            r@ == self@.color,
    {
        self.color.as_str()
    }

    pub fn regex(&self) -> (r: &Vec<Pattern>)
        ensures
            patterns_view(r@) == self@.patterns,
    {
        &self.regex
    }

    pub fn ignore_whitespace(&self) -> (r: bool)
        ensures
            r == self@.ignore_whitespace,
    {
        self.ignore_whitespace
    }
}

} // verus!

verus! {

/// The size of the buffer that received data is read into.
pub struct ReadBufSize(pub usize);

impl Default for ReadBufSize {
    fn default() -> (r: Self)
        ensures
            r.0 == READ_BUFFER_SIZE,
    {
        ReadBufSize(READ_BUFFER_SIZE)
    }
}

impl ReadBufSize {
    pub fn unwrap(&self) -> (r: usize)
        ensures
            r == self.0,
    {
        self.0
    }
}

/// How many seconds a TCP connection attempt may take.
pub struct TcpConnectTimeout(pub u64);

impl Default for TcpConnectTimeout {
    fn default() -> (r: Self)
        ensures
            r.0 == TCP_CONNECT_TIMEOUT,
    {
        TcpConnectTimeout(TCP_CONNECT_TIMEOUT)
    }
}

impl TcpConnectTimeout {
    pub fn unwrap(&self) -> (r: u64)
        ensures
            r == self.0,
    {
        self.0
    }
}

pub fn default_timestamp_format() -> (r: String)
    ensures
        r@ == TIMESTAMP_FORMAT@,
{
    TIMESTAMP_FORMAT.to_string()
}

pub fn default_log_format() -> (r: String)
    ensures
        r@ == LOG_FORMAT@,
{
    LOG_FORMAT.to_string()
}

pub fn default_log_destination() -> (r: String)
    ensures
        r@ == LOG_DESTINATION@,
{
    LOG_DESTINATION.to_string()
}

pub fn default_terminal_type() -> (r: String)
    ensures
        r@ == TERMINAL_TYPE@,
{
    TERMINAL_TYPE.to_string()
}

/// The configuration file as it reads, with the defaults filled in where it is silent.
pub struct Setting {
    pub port: Option<String>,
    pub speed: Option<String>,
    pub crlf: bool,
    pub read_buf_size: ReadBufSize,
    pub tcp_connect_timeout: TcpConnectTimeout,
    pub timestamp_format: String,
    pub debug: bool,
    pub timestamp: bool,
    pub auto_save_log: bool,
    pub log_format: String,
    pub log_destination: String,
    pub terminal_type: String,
    pub colorings: Vec<Coloring>,
}

/// The configuration that a session runs with.
pub struct Params {
    pub port: Option<String>,
    pub speed: Option<String>,
    pub crlf: bool,
    pub read_buf_size: usize,
    pub tcp_connect_timeout: u64,
    pub timestamp_format: String,
    pub debug: bool,
    pub timestamp: bool,
    pub auto_save_log: bool,
    pub log_format: String,
    pub log_destination: String,
    pub terminal_type: String,
    pub syntaxes: Vec<SyntaxDefinition>,
}

/// Why a configuration cannot be used.
#[derive(Debug)]
pub enum SettingError {
    /// A pattern that does not compile.
    InvalidRegex(String),
    /// A color that matches no color syntax, with the message that says so.
    InvalidColor(String),
}

pub enum SettingErrorView {
    InvalidRegex(Seq<char>),
    InvalidColor(Seq<char>),
}

impl View for SettingError {
    type V = SettingErrorView;

    open spec fn view(&self) -> SettingErrorView {
        match self {
            SettingError::InvalidRegex(s) => SettingErrorView::InvalidRegex(s@),
            SettingError::InvalidColor(s) => SettingErrorView::InvalidColor(s@),
        }
    }
}

/// The first pattern, in order, that does not compile.
pub open spec fn first_bad_pattern(ps: Seq<Seq<char>>) -> Option<Seq<char>>
    decreases ps.len(),
{
    if ps.len() == 0 {
        None
    } else if !regex_compiles(ps[0]) {
        Some(ps[0])
    } else {
        first_bad_pattern(ps.drop_first())
    }
}

/// The highlighting rule of one `[[colorings]]` table: its patterns must compile (checked
/// first) and its color must be valid.
pub open spec fn coloring_syntax(c: ColoringView) -> Result<SyntaxView, SettingErrorView> {
    match first_bad_pattern(c.regex) {
        Some(p) => Err(SettingErrorView::InvalidRegex(p)),
        None => match color_escape(c.color, c.underlined == Some(true)) {
            Err(m) => Err(SettingErrorView::InvalidColor(m)),
            Ok(esc) => Ok(
                SyntaxView {
                    color: esc,
                    patterns: c.regex,
                    ignore_whitespace: c.ignore_whitespace == Some(true),
                },
            ),
        },
    }
}

/// The highlighting rules of the tables `cs`, in order, or the first problem met.
pub open spec fn colorings_syntaxes(cs: Seq<ColoringView>) -> Result<Seq<SyntaxView>, SettingErrorView>
    decreases cs.len(),
{
    if cs.len() == 0 {
        Ok(Seq::empty())
    } else {
        match coloring_syntax(cs[0]) {
            Err(e) => Err(e),
            Ok(s) => match colorings_syntaxes(cs.drop_first()) {
                Err(e) => Err(e),
                Ok(rest) => Ok(seq![s] + rest),
            },
        }
    }
}

/// The pattern of the rule that stands first and matches nothing: `0^`.
pub open spec fn never_pattern() -> Seq<char> {
    seq!['0', '^']
}

/// The rule that every configuration starts with: reset, on a pattern that matches nothing.
pub open spec fn reset_syntax() -> SyntaxView {
    SyntaxView { color: seq!['\x1b', '[', '0', 'm'], patterns: seq![never_pattern()], ignore_whitespace: false }
}

/// The views of the tables of a setting.
pub open spec fn colorings_view(cs: Seq<Coloring>) -> Seq<ColoringView> {
    cs.map_values(|c: Coloring| c@)
}

/// The views of the rules of a configuration.
pub open spec fn syntaxes_view(ss: Seq<SyntaxDefinition>) -> Seq<SyntaxView> {
    ss.map_values(|s: SyntaxDefinition| s@)
}

/// The highlighting rules that a setting gives: the reset rule, then one for each table.
pub open spec fn setting_syntaxes(cs: Seq<ColoringView>) -> Result<Seq<SyntaxView>, SettingErrorView> {
    if !regex_compiles(never_pattern()) {
        Err(SettingErrorView::InvalidRegex(never_pattern()))
    } else {
        match colorings_syntaxes(cs) {
            Err(e) => Err(e),
            Ok(ss) => Ok(seq![reset_syntax()] + ss),
        }
    }
}

} // verus!

verus! {

fn compile_all(patterns: &Vec<String>) -> (r: Result<Vec<Pattern>, String>)
    ensures
        match first_bad_pattern(strings_view(patterns@)) {
            Some(p) => r matches Err(s) && s@ == p,
            None => r matches Ok(v) && patterns_view(v@) == strings_view(patterns@),
        },
{
    let ghost ps = strings_view(patterns@);
    let mut compiled: Vec<Pattern> = Vec::new();
    let mut k: usize = 0;
    assert(ps.skip(0) =~= ps);
    assert(patterns_view(compiled@) =~= ps.take(0));
    while k < patterns.len()
        invariant
            k <= patterns@.len(),
            ps == strings_view(patterns@),
            patterns_view(compiled@) == ps.take(k as int),
            first_bad_pattern(ps) == first_bad_pattern(ps.skip(k as int)),
        decreases patterns@.len() - k,
    {
        let ghost rest = ps.skip(k as int);
        assert(rest[0] == patterns@[k as int]@);
        assert(rest.drop_first() =~= ps.skip(k + 1));
        match Pattern::compile(patterns[k].as_str()) {
            Some(p) => {
                let ghost before = patterns_view(compiled@);
                compiled.push(p);
                assert(patterns_view(compiled@) =~= before.push(ps[k as int]));
                assert(ps.take(k + 1) =~= ps.take(k as int).push(ps[k as int]));
            },
            None => {
                let bad = patterns[k].clone();
                return Err(bad);
            },
        }
        k += 1;
    }
    assert(ps.take(k as int) =~= ps);
    assert(ps.skip(k as int).len() == 0);
    Ok(compiled)
}

impl Params {
    /// The configuration that `setting` describes: its values, and the highlighting rules of
    /// its `[[colorings]]` tables after a first rule that resets the color. Fails on the first
    /// pattern that does not compile or the first color that is not valid, table by table.
    pub fn from_setting(setting: Setting) -> (r: Result<Params, SettingError>)
        ensures
            match setting_syntaxes(colorings_view(setting.colorings@)) {
                Err(e) => r matches Err(x) && x@ == e,
                Ok(ss) => r matches Ok(p) && {
                    &&& syntaxes_view(p.syntaxes@) == ss
                    &&& p.port == setting.port
                    &&& p.speed == setting.speed
                    &&& p.crlf == setting.crlf
                    &&& p.read_buf_size == setting.read_buf_size.0
                    &&& p.tcp_connect_timeout == setting.tcp_connect_timeout.0
                    &&& p.timestamp_format == setting.timestamp_format
                    &&& p.debug == setting.debug
                    &&& p.timestamp == setting.timestamp
                    &&& p.auto_save_log == setting.auto_save_log
                    &&& p.log_format == setting.log_format
                    &&& p.log_destination == setting.log_destination
                    &&& p.terminal_type == setting.terminal_type
                },
            },
    {
        let ghost cs = colorings_view(setting.colorings@);
        let mut syntaxes: Vec<SyntaxDefinition> = Vec::new();
        match Pattern::compile("0^") {
            Some(p) => {
                proof {
                    reveal_strlit("0^");
                    assert("0^"@ =~= never_pattern());
                }
                let pats = vec![p];
                assert(pats@ =~= seq![p]);
                assert(patterns_view(pats@) =~= seq![never_pattern()]);
                let first = SyntaxDefinition::new(string_of(&['\x1b', '[', '0', 'm']), pats, false);
                assert(first@ == reset_syntax());
                syntaxes.push(first);
                assert(syntaxes@ =~= seq![first]);
            },
            None => {
                proof {
                    reveal_strlit("0^");
                    assert("0^"@ =~= never_pattern());
                }
                return Err(SettingError::InvalidRegex(string_of(&['0', '^'])));
            },
        }
        assert(syntaxes_view(syntaxes@) =~= seq![reset_syntax()]);
        assert(cs.skip(0) =~= cs);
        assert(syntaxes_view(syntaxes@).skip(1) =~= Seq::<SyntaxView>::empty());
        proof {
            match colorings_syntaxes(cs) {
                Err(e) => {},
                Ok(all) => {
                    assert(Seq::<SyntaxView>::empty() + all =~= all);
                    assert(all.take(0) =~= Seq::<SyntaxView>::empty());
                    assert(seq![reset_syntax()] + all.take(0) =~= seq![reset_syntax()]);
                },
            }
        }
        let mut k: usize = 0;
        while k < setting.colorings.len()
            invariant
                k <= setting.colorings@.len(),
                cs == colorings_view(setting.colorings@),
                regex_compiles(never_pattern()),
                colorings_syntaxes(cs) matches Ok(all) ==> syntaxes_view(syntaxes@) == seq![reset_syntax()] + all.take(k as int),
                colorings_syntaxes(cs) == (match colorings_syntaxes(cs.skip(k as int)) {
                    Err(e) => Err(e),
                    Ok(rest) => Ok(syntaxes_view(syntaxes@).skip(1) + rest),
                }),
                syntaxes_view(syntaxes@).len() == k + 1,
                syntaxes_view(syntaxes@)[0] == reset_syntax(),
            decreases setting.colorings@.len() - k,
        {
            let coloring = &setting.colorings[k];
            let ghost c = cs[k as int];
            assert(c == coloring@);
            let ghost rest = cs.skip(k as int);
            assert(rest[0] == c);
            assert(rest.drop_first() =~= cs.skip(k + 1));
            let patterns = match compile_all(coloring.regex()) {
                Ok(v) => v,
                Err(bad) => {
                    return Err(SettingError::InvalidRegex(bad));
                },
            };
            let color = match color::valid_color_syntax(coloring) {
                Ok(s) => s,
                Err(m) => {
                    return Err(SettingError::InvalidColor(m));
                },
            };
            let ignore = coloring.ignore_whitespace();
            let ghost before = syntaxes_view(syntaxes@);
            let syntax = SyntaxDefinition::new(color, patterns, ignore);
            syntaxes.push(syntax);
            proof {
                assert(syntaxes_view(syntaxes@) =~= before.push(syntax@));
                assert(syntaxes_view(syntaxes@).skip(1) =~= before.skip(1) + seq![syntax@]);
                match colorings_syntaxes(cs.skip(k + 1)) {
                    Err(e) => {},
                    Ok(r2) => {
                        assert(before.skip(1) + (seq![syntax@] + r2) =~= (before.skip(1) + seq![syntax@]) + r2);
                    },
                }
                match colorings_syntaxes(cs) {
                    Err(e) => {},
                    Ok(all) => {
                        assert(all.take(k + 1) =~= all.take(k as int).push(syntax@));
                    },
                }
            }
            k += 1;
        }
        proof {
            assert(cs.skip(k as int).len() == 0);
            assert(syntaxes_view(syntaxes@) =~= seq![reset_syntax()] + syntaxes_view(syntaxes@).skip(1));
        }
        Ok(Params {
            port: setting.port,
            speed: setting.speed,
            crlf: setting.crlf,
            read_buf_size: setting.read_buf_size.unwrap(),
            tcp_connect_timeout: setting.tcp_connect_timeout.unwrap(),
            timestamp_format: setting.timestamp_format,
            debug: setting.debug,
            timestamp: setting.timestamp,
            auto_save_log: setting.auto_save_log,
            log_format: setting.log_format,
            log_destination: setting.log_destination,
            terminal_type: setting.terminal_type,
            syntaxes,
        })
    }
}

} // verus!
