//! The tokenizer of the raw command line.
use vstd::prelude::*;
use vstd::slice::slice_subrange;
use crate::decimal::{parse_u32, parse_u32_spec};
use crate::error::ErrorKind;
use crate::scan::{first_match, index_of_unit, lemma_first_match_is, lemma_first_match_props};

verus! {

/// The double quote.
pub const QUOTE: u16 = 0x22;

/// The space.
pub const SPACE: u16 = 0x20;

/// The horizontal tab.
pub const TAB: u16 = 0x09;

/// The option marker.
pub const DASH: u16 = 0x2D;

/// Whether `c` separates tokens: a space or a tab.
pub open spec fn is_blank(c: u16) -> bool {
    c == SPACE || c == TAB
}

/// Whether the unit is the NUL that ends a raw command line.
pub fn unit_is_nul(c: &u16) -> (r: bool)
    ensures
        r == (*c == 0),
{
    *c == 0
}

/// Whether the unit is a double quote.
pub fn unit_is_quote(c: &u16) -> (r: bool)
    ensures
        r == (*c == QUOTE),
{
    *c == QUOTE
}

/// Whether the unit ends an unquoted program path: a space or anything below.
pub fn unit_ends_path(c: &u16) -> (r: bool)
    ensures
        r == (*c <= SPACE),
{
    *c <= SPACE
}

/// Whether the unit is a space or a tab.
pub fn unit_is_blank(c: &u16) -> (r: bool)
    ensures
        r == is_blank(*c),
{
    *c == SPACE || *c == TAB
}

/// Whether the unit is neither a space nor a tab.
pub fn unit_is_not_blank(c: &u16) -> (r: bool)
    ensures
        r == !is_blank(*c),
{
    *c != SPACE && *c != TAB
}

/// `s` without its leading blanks.
pub open spec fn trim_left_spec(s: Seq<u16>) -> Seq<u16> {
    s.skip(first_match(s, |c: u16| !is_blank(c), 0))
}

/// The length of the token that `s` starts with: the units before the first
/// blank.
pub open spec fn token_len(s: Seq<u16>) -> int {
    first_match(s, |c: u16| is_blank(c), 0)
}

/// The number of leading units that hold the invoking program's own path and
/// the one unit that ends it. A path that opens with a quote runs to the next
/// quote; any other runs to the first unit that is a space or below. The unit
/// that ends the path is counted too, where the line has one.
pub open spec fn program_len(s: Seq<u16>) -> int {
    if s.len() == 0 {
        0
    } else {
        let i = if s[0] == QUOTE {
            first_match(s, |c: u16| c == QUOTE, 1)
        } else if s[0] <= SPACE {
            0
        } else {
            first_match(s, |c: u16| c <= SPACE, 1)
        };
        if i < s.len() {
            i + 1
        } else {
            i
        }
    }
}

/// The command line without the invoking program's own path.
pub open spec fn strip_program(s: Seq<u16>) -> Seq<u16> {
    s.skip(program_len(s))
}

/// Stripping the program's path removes a prefix of the line that holds the
/// path and at most the one unit that ends it: every removed unit but the
/// last belongs to the path, so nothing of the first option or of the
/// command is lost.
pub proof fn lemma_strip_removes_path_only(s: Seq<u16>)
    ensures
        0 <= program_len(s) <= s.len(),
        s == s.take(program_len(s)) + strip_program(s),
        s.len() > 0 ==> program_len(s) >= 1,
        s.len() > 0 && s[0] == QUOTE ==> forall|j: int|
            1 <= j < program_len(s) - 1 ==> #[trigger] s[j] != QUOTE,
        s.len() > 0 && s[0] != QUOTE ==> forall|j: int|
            1 <= j < program_len(s) - 1 ==> #[trigger] s[j] > SPACE,
{
    if s.len() > 0 {
        lemma_first_match_props(s, |c: u16| c == QUOTE, 1);
        lemma_first_match_props(s, |c: u16| c <= SPACE, 1);
    }
    assert(s =~= s.take(program_len(s)) + strip_program(s));
}

/// A line that starts with an unquoted path, the unit that ends it and
/// anything else is stripped to exactly what follows that unit; a line that
/// holds the path alone is stripped to nothing.
pub proof fn lemma_strip_unquoted(path: Seq<u16>, end: u16, tail: Seq<u16>)
    requires
        path.len() > 0,
        path[0] != QUOTE,
        forall|j: int| 0 <= j < path.len() ==> #[trigger] path[j] > SPACE,
        end <= SPACE,
    ensures
        strip_program(path.push(end) + tail) == tail,
        strip_program(path) == Seq::<u16>::empty(),
{
    let s = path.push(end) + tail;
    let n = path.len() as int;
    assert(s[0] == path[0]);
    assert forall|j: int| 1 <= j < n implies !(#[trigger] s[j] <= SPACE) by {
        assert(s[j] == path[j]);
    }
    assert(s[n] == end);
    lemma_first_match_is(s, |c: u16| c <= SPACE, 1, n);
    assert(s.skip(n + 1) =~= tail);
    lemma_first_match_is(path, |c: u16| c <= SPACE, 1, n);
    assert(path.skip(n) =~= Seq::<u16>::empty());
}

/// A line that starts with a path between two quotes is stripped to exactly
/// what follows the closing quote.
pub proof fn lemma_strip_quoted(path: Seq<u16>, tail: Seq<u16>)
    requires
        forall|j: int| 0 <= j < path.len() ==> #[trigger] path[j] != QUOTE,
    ensures
        strip_program((seq![QUOTE] + path).push(QUOTE) + tail) == tail,
{
    let s = (seq![QUOTE] + path).push(QUOTE) + tail;
    let n = path.len() as int + 1;
    assert(s[0] == QUOTE);
    assert forall|j: int| 1 <= j < n implies !(#[trigger] s[j] == QUOTE) by {
        assert(s[j] == path[j - 1]);
    }
    assert(s[n] == QUOTE);
    lemma_first_match_is(s, |c: u16| c == QUOTE, 1, n);
    assert(s.skip(n + 1) =~= tail);
}

/// The option `--`, after which everything is the command.
pub open spec fn opt_end() -> Seq<u16> {
    seq![0x2Du16, 0x2Du16]
}

/// The option `--help`.
pub open spec fn opt_help() -> Seq<u16> {
    seq![0x2Du16, 0x2Du16, 0x68u16, 0x65u16, 0x6Cu16, 0x70u16]
}

/// The option `-h`.
pub open spec fn opt_h() -> Seq<u16> {
    seq![0x2Du16, 0x68u16]
}

/// The option `--attach-id`, which the requesting phase hands to the
/// elevated one.
pub open spec fn opt_attach() -> Seq<u16> {
    seq![
        0x2Du16,
        0x2Du16,
        0x61u16,
        0x74u16,
        0x74u16,
        0x61u16,
        0x63u16,
        0x68u16,
        0x2Du16,
        0x69u16,
        0x64u16,
    ]
}

/// What reading the leading option of `v.line` makes of `v`, and whether the
/// option was accepted.
///
/// The line is trimmed on the left and its first token is looked at. A token
/// that is empty or does not start with a dash is the start of the command,
/// which is the whole trimmed line. `--` makes the rest, trimmed, the
/// command. `--help` and `-h` ask for the usage text. `--attach-id` takes the
/// next token as a process identifier and makes what follows it, trimmed, the
/// command. Any other token that starts with a dash is refused.
pub open spec fn parse_spec(v: OptsView) -> (OptsView, Result<(), ErrorKind>) {
    let line = trim_left_spec(v.line);
    let i = token_len(line);
    let opt = line.take(i);
    let rest = line.skip(i);
    if opt.len() == 0 || opt[0] != DASH {
        (OptsView { line: line, command: line, ..v }, Ok(()))
    } else if opt == opt_end() {
        (OptsView { line: rest, command: trim_left_spec(rest), ..v }, Ok(()))
    } else if opt == opt_help() || opt == opt_h() {
        (OptsView { line: rest, help: true, ..v }, Ok(()))
    } else if opt == opt_attach() {
        let tail = trim_left_spec(rest);
        let j = token_len(tail);
        match parse_u32_spec(tail.take(j)) {
            Some(id) => (
                OptsView {
                    line: tail,
                    command: trim_left_spec(tail.skip(j)),
                    attach_id: Some(id),
                    ..v
                },
                Ok(()),
            ),
            None => (OptsView { line: tail, ..v }, Err(ErrorKind::UsageError)),
        }
    } else {
        (OptsView { line: rest, ..v }, Err(ErrorKind::InvalidOption))
    }
}

/// Whether every unit of `s` is a space or a tab.
pub open spec fn all_blank(s: Seq<u16>) -> bool {
    forall|j: int| 0 <= j < s.len() ==> is_blank(#[trigger] s[j])
}

/// The options that a process starts from before it has read its line.
pub open spec fn unread(line: Seq<u16>) -> OptsView {
    OptsView { line: line, command: Seq::empty(), help: false, attach_id: None }
}

/// A line made of blanks, a token and a tail that is empty or starts with a
/// blank is trimmed to the token and the tail, and its first token is that
/// token.
pub proof fn lemma_leading_token(lead: Seq<u16>, token: Seq<u16>, tail: Seq<u16>)
    requires
        all_blank(lead),
        token.len() > 0,
        forall|j: int| 0 <= j < token.len() ==> !is_blank(#[trigger] token[j]),
        tail.len() == 0 || is_blank(tail[0]),
    ensures
        trim_left_spec(lead + token + tail) == token + tail,
        token_len(token + tail) == token.len(),
        (token + tail).take(token.len() as int) == token,
        (token + tail).skip(token.len() as int) == tail,
{
    let line = lead + token + tail;
    let n = lead.len() as int;
    let k = token.len() as int;
    assert forall|j: int| 0 <= j < n implies !!is_blank(#[trigger] line[j]) by {
        assert(line[j] == lead[j]);
    }
    assert(line[n] == token[0]);
    lemma_first_match_is(line, |c: u16| !is_blank(c), 0, n);
    assert(line.skip(n) =~= token + tail);
    let l = token + tail;
    assert forall|j: int| 0 <= j < k implies !is_blank(#[trigger] l[j]) by {
        assert(l[j] == token[j]);
    }
    if tail.len() > 0 {
        assert(l[k] == tail[0]);
    }
    lemma_first_match_is(l, |c: u16| is_blank(c), 0, k);
    assert(l.take(k) =~= token);
    assert(l.skip(k) =~= tail);
}

/// A line without arguments, that is one of blanks alone, is accepted and
/// names no command.
pub proof fn lemma_no_arguments(line: Seq<u16>)
    requires
        all_blank(line),
    ensures
        parse_spec(unread(line)).1 == Ok::<(), ErrorKind>(()),
        parse_spec(unread(line)).0.command.len() == 0,
        !parse_spec(unread(line)).0.help,
        parse_spec(unread(line)).0.attach_id is None,
{
    let n = line.len() as int;
    assert forall|j: int| 0 <= j < n implies !!is_blank(#[trigger] line[j]) by {}
    lemma_first_match_is(line, |c: u16| !is_blank(c), 0, n);
    assert(line.skip(n) =~= Seq::<u16>::empty());
}

/// A command that does not start with a dash is taken whole and verbatim,
/// with everything that follows its first token.
pub proof fn lemma_plain_command(lead: Seq<u16>, command: Seq<u16>)
    requires
        all_blank(lead),
        command.len() > 0,
        !is_blank(command[0]),
        command[0] != DASH,
    ensures
        parse_spec(unread(lead + command)).1 == Ok::<(), ErrorKind>(()),
        parse_spec(unread(lead + command)).0.command == command,
        !parse_spec(unread(lead + command)).0.help,
        parse_spec(unread(lead + command)).0.attach_id is None,
{
    let line = lead + command;
    let n = lead.len() as int;
    assert forall|j: int| 0 <= j < n implies !!is_blank(#[trigger] line[j]) by {
        assert(line[j] == lead[j]);
    }
    assert(line[n] == command[0]);
    lemma_first_match_is(line, |c: u16| !is_blank(c), 0, n);
    assert(line.skip(n) =~= command);
    lemma_first_match_props(command, |c: u16| is_blank(c), 0);
    if token_len(command) > 0 {
        assert(command.take(token_len(command))[0] == command[0]);
    }
}

/// `--help` and `-h` ask for the usage text whatever follows them.
pub proof fn lemma_help_wins(lead: Seq<u16>, short: bool, tail: Seq<u16>)
    requires
        all_blank(lead),
        tail.len() == 0 || is_blank(tail[0]),
    ensures
        ({
            let opt = if short { opt_h() } else { opt_help() };
            let parsed = parse_spec(unread(lead + opt + tail));
            parsed.1 == Ok::<(), ErrorKind>(()) && parsed.0.help && parsed.0.command.len() == 0
        }),
{
    let opt = if short { opt_h() } else { opt_help() };
    lemma_leading_token(lead, opt, tail);
    assert((opt + tail)[0] == opt[0]);
    if short {
        assert(opt[1] != opt_end()[1]);
    } else {
        assert(opt.len() != opt_end().len());
    }
}

/// After `--` everything is the command, even where it looks like an
/// option: the rest of the line, trimmed on the left, is taken verbatim.
pub proof fn lemma_end_of_options(lead: Seq<u16>, tail: Seq<u16>)
    requires
        all_blank(lead),
        tail.len() == 0 || is_blank(tail[0]),
    ensures
        ({
            let parsed = parse_spec(unread(lead + opt_end() + tail));
            parsed.1 == Ok::<(), ErrorKind>(()) && parsed.0.command == trim_left_spec(tail)
                && !parsed.0.help && parsed.0.attach_id is None
        }),
{
    lemma_leading_token(lead, opt_end(), tail);
    assert((opt_end() + tail)[0] == opt_end()[0]);
}

/// A leading token that starts with a dash and is none of the four options
/// is refused, whatever follows it.
pub proof fn lemma_unknown_option(lead: Seq<u16>, token: Seq<u16>, tail: Seq<u16>)
    requires
        all_blank(lead),
        token.len() > 0,
        token[0] == DASH,
        forall|j: int| 0 <= j < token.len() ==> !is_blank(#[trigger] token[j]),
        tail.len() == 0 || is_blank(tail[0]),
        token != opt_end() && token != opt_help() && token != opt_h() && token != opt_attach(),
    ensures
        parse_spec(unread(lead + token + tail)).1 == Err::<(), ErrorKind>(ErrorKind::InvalidOption),
        parse_spec(unread(lead + token + tail)).0.command.len() == 0,
        parse_spec(unread(lead + token + tail)).0.attach_id is None,
{
    lemma_leading_token(lead, token, tail);
    assert((token + tail)[0] == token[0]);
}

/// What the tokenizer makes of a raw command line: the line up to its first
/// NUL, without the program's own path, with its leading option read.
pub open spec fn tokenize_spec(raw: Seq<u16>) -> (OptsView, Result<(), ErrorKind>) {
    parse_spec(unread(strip_program(raw.take(first_match(raw, |c: u16| c == 0, 0)))))
}

/// Whether two runs of code units are the same.
pub fn same_units(a: &[u16], b: &[u16]) -> (r: bool)
    ensures
        r == (a@ == b@),
{
    if a.len() != b.len() {
        return false;
    }
    let mut i: usize = 0;
    while i < a.len()
        invariant
            a@.len() == b@.len(),
            i <= a@.len(),
            forall|j: int| 0 <= j < i ==> a@[j] == b@[j],
        decreases a@.len() - i,
    {
        if a[i] != b[i] {
            return false;
        }
        i += 1;
    }
    assert(a@ =~= b@);
    true
}

/// Splits `slice` into its first token and what follows it: the token is
/// the units before the first space or tab.
pub fn split_token(slice: &[u16]) -> (parts: (&[u16], &[u16]))
    ensures
        parts.0@ == slice@.take(token_len(slice@)),
        parts.1@ == slice@.skip(token_len(slice@)),
{
    let i = index_of_unit(slice, unit_is_blank, 0, Ghost(|c: u16| is_blank(c)));
    let token = slice_subrange(slice, 0, i);
    let rest = slice_subrange(slice, i, slice.len());
    assert(token@ =~= slice@.take(i as int));
    assert(rest@ =~= slice@.skip(i as int));
    (token, rest)
}

/// The options of one invocation and the command that it is to run.
pub struct Opts<'a> {
    /// What is left of the command line to read.
    pub line: &'a [u16],
    /// The command to run, as it stood on the command line.
    pub command: &'a [u16],
    /// Whether the usage text was asked for.
    pub help: bool,
    /// The process whose console the command is to run in; present in the
    /// elevated phase only.
    pub attach_id: Option<u32>,
}

/// The mathematical content of an `Opts`.
pub struct OptsView {
    pub line: Seq<u16>,
    pub command: Seq<u16>,
    pub help: bool,
    pub attach_id: Option<u32>,
}

impl<'a> View for Opts<'a> {
    type V = OptsView;

    open spec fn view(&self) -> OptsView {
        OptsView { line: self.line@, command: self.command@, help: self.help, attach_id: self.attach_id }
    }
}

impl<'a> Opts<'a> {
    /// Captures a raw command line: the units of `raw` up to its first NUL,
    /// or all of them where it holds none. Nothing is parsed yet.
    pub fn load(raw: &'a [u16]) -> (opts: Opts<'a>)
        ensures
            opts@ == unread(raw@.take(first_match(raw@, |c: u16| c == 0, 0))),
    {
        let n = index_of_unit(
            raw,
            unit_is_nul,
            0,
            Ghost(|c: u16| c == 0),
        );
        let line = slice_subrange(raw, 0, n);
        let command = slice_subrange(raw, 0, 0);
        assert(command@ =~= Seq::empty());
        assert(line@ =~= raw@.take(n as int));
        Opts { line, command, help: false, attach_id: None }
    }

    /// Drops the invoking program's own path from the front of the line.
    pub fn skip_current_exe(&mut self)
        ensures
            final(self)@ == (OptsView { line: strip_program(old(self).line@), ..old(self)@ }),
    {
        if self.line.len() == 0 {
            assert(self.line@ =~= strip_program(self.line@));
            return ;
        }
        let first: u16 = self.line[0];
        let mut i: usize = if first == QUOTE {
            index_of_unit(
                self.line,
                unit_is_quote,
                1,
                Ghost(|c: u16| c == QUOTE),
            )
        } else if first <= SPACE {
            0
        } else {
            index_of_unit(
                self.line,
                unit_ends_path,
                1,
                Ghost(|c: u16| c <= SPACE),
            )
        };
        if i < self.line.len() {
            i += 1;
        }
        let rest = slice_subrange(self.line, i, self.line.len());
        assert(rest@ =~= strip_program(self.line@));
        self.line = rest;
    }

    /// `slice` without its leading spaces and tabs.
    pub fn trim_left(slice: &[u16]) -> (rest: &[u16])
        ensures
            rest@ == trim_left_spec(slice@),
    {
        let i = index_of_unit(
            slice,
            unit_is_not_blank,
            0,
            Ghost(|c: u16| !is_blank(c)),
        );
        let rest = slice_subrange(slice, i, slice.len());
        assert(rest@ =~= trim_left_spec(slice@));
        rest
    }

    /// Reads the leading option of the line, as `parse_spec` says. On `Ok`
    /// the command, the help flag and the attach identifier are set; an
    /// unknown option gives `InvalidOption`, and an `--attach-id` without a
    /// readable identifier gives `UsageError`.
    pub fn parse_args(&mut self) -> (r: Result<(), ErrorKind>)
        ensures
            (final(self)@, r) == parse_spec(old(self)@),
    {
        let line = Self::trim_left(self.line);
        let (opt, rest) = split_token(line);
        if opt.len() == 0 || opt[0] != DASH {
            self.line = line;
            self.command = line;
            return Ok(());
        }
        self.line = rest;
        let end: [u16; 2] = [0x2D, 0x2D];
        let help: [u16; 6] = [0x2D, 0x2D, 0x68, 0x65, 0x6C, 0x70];
        let h: [u16; 2] = [0x2D, 0x68];
        let attach: [u16; 11] = [0x2D, 0x2D, 0x61, 0x74, 0x74, 0x61, 0x63, 0x68, 0x2D, 0x69, 0x64];
        assert(end@ =~= opt_end());
        assert(help@ =~= opt_help());
        assert(h@ =~= opt_h());
        assert(attach@ =~= opt_attach());
        if same_units(opt, end.as_slice()) {
            self.command = Self::trim_left(rest);
            Ok(())
        } else if same_units(opt, help.as_slice()) || same_units(opt, h.as_slice()) {
            self.help = true;
            Ok(())
        } else if same_units(opt, attach.as_slice()) {
            let tail = Self::trim_left(rest);
            self.line = tail;
            let (id_token, after) = split_token(tail);
            match parse_u32(id_token) {
                Some(id) => {
                    self.attach_id = Some(id);
                    self.command = Self::trim_left(after);
                    Ok(())
                },
                None => Err(ErrorKind::UsageError),
            }
        } else {
            Err(ErrorKind::InvalidOption)
        }
    }
}

/// Tokenizes a raw command line: captures it, drops the program's own path
/// and reads the leading option.
pub fn tokenize<'a>(raw: &'a [u16]) -> (r: Result<Opts<'a>, ErrorKind>)
    ensures
        match r {
            Ok(opts) => tokenize_spec(raw@) == (opts@, Ok::<(), ErrorKind>(())),
            Err(e) => tokenize_spec(raw@).1 == Err::<(), ErrorKind>(e),
        },
{
    let mut opts = Opts::load(raw);
    opts.skip_current_exe();
    match opts.parse_args() {
        Ok(()) => Ok(opts),
        Err(e) => Err(e),
    }
}

} // verus!
