//! The message that the requesting phase sends to the elevated one.
//!
//! On the wire the message is the parameter string of the elevated process:
//! the option `--attach-id`, a space, the requester's process identifier in
//! decimal, a space, and the encoded argument vector, whose first argument is
//! the target executable.
use vstd::prelude::*;
use crate::codec::{
    args_view,
    decode,
    decode_spec,
    encode_arg,
    encode_arg_into,
    encode_into,
    encode_spec,
    is_wire_unit,
    lemma_decode_encode,
    lemma_encode_wire,
    SEPARATOR,
};
use crate::decimal::{decimal, decimal_spec, is_digit, lemma_decimal_spec, lemma_parse_decimal};
use crate::error::ErrorKind;
use crate::scan::lemma_first_match_is;
use crate::tokenizer::{is_blank, opt_attach, parse_spec, unread, Opts, SPACE};

verus! {

/// What the elevated phase is asked to do: to run `target_executable` with
/// `target_args` in the console of the process `requester_pid`.
#[derive(Debug)]
pub struct ElevationRequest {
    pub requester_pid: u32,
    pub target_executable: Vec<u16>,
    pub target_args: Vec<Vec<u16>>,
}

/// The mathematical content of an `ElevationRequest`.
pub struct RequestView {
    pub requester_pid: u32,
    pub target_executable: Seq<u16>,
    pub target_args: Seq<Seq<u16>>,
}

impl RequestView {
    /// The argument vector of the target process: the executable, then its
    /// arguments.
    pub open spec fn argv(self) -> Seq<Seq<u16>> {
        seq![self.target_executable] + self.target_args
    }

    /// The parameter string that carries the request.
    pub open spec fn parameters(self) -> Seq<u16> {
        parameters_spec(self.requester_pid, self.argv())
    }
}

impl View for ElevationRequest {
    type V = RequestView;

    open spec fn view(&self) -> RequestView {
        RequestView {
            requester_pid: self.requester_pid,
            target_executable: self.target_executable@,
            target_args: args_view(self.target_args@),
        }
    }
}

/// The parameter string for the requester `pid` and the argument vector
/// `argv`.
pub open spec fn parameters_spec(pid: u32, argv: Seq<Seq<u16>>) -> Seq<u16> {
    opt_attach().push(SPACE) + decimal_spec(pid as nat).push(SPACE) + encode_spec(argv)
}

/// The request that an attach identifier and an encoded command carry: the
/// identifier must be there, and the command must decode to an argument
/// vector that names at least the executable.
pub open spec fn request_spec(attach_id: Option<u32>, command: Seq<u16>) -> Result<
    RequestView,
    ErrorKind,
> {
    match (attach_id, decode_spec(command)) {
        (Some(pid), Some(argv)) => if argv.len() > 0 {
            Ok(
                RequestView {
                    requester_pid: pid,
                    target_executable: argv[0],
                    target_args: argv.skip(1),
                },
            )
        } else {
            Err(ErrorKind::UsageError)
        },
        _ => Err(ErrorKind::UsageError),
    }
}

/// The wire format round trips: reading the parameter string of any request
/// gives the requester's identifier and an encoded command from which the
/// same request is rebuilt.
pub proof fn lemma_request_round_trip(r: RequestView)
    ensures
        parse_spec(unread(r.parameters())).1 == Ok::<(), ErrorKind>(()),
        parse_spec(unread(r.parameters())).0.attach_id == Some(r.requester_pid),
        parse_spec(unread(r.parameters())).0.command == encode_spec(r.argv()),
        !parse_spec(unread(r.parameters())).0.help,
        request_spec(Some(r.requester_pid), encode_spec(r.argv())) == Ok::<RequestView, ErrorKind>(r),
{
    let argv = r.argv();
    let digits = decimal_spec(r.requester_pid as nat);
    let enc = encode_spec(argv);
    let line = r.parameters();
    let opt = opt_attach();
    lemma_decimal_spec(r.requester_pid as nat);
    lemma_parse_decimal(r.requester_pid);
    lemma_encode_wire(argv);
    lemma_decode_encode(argv);
    assert(argv[0] == r.target_executable);
    assert(argv.skip(1) =~= r.target_args);

    // The line starts with the option, which a space ends.
    assert(line.len() == 11 + 1 + digits.len() + 1 + enc.len());
    assert forall|j: int| 0 <= j < 11 implies line[j] == opt[j] && !is_blank(#[trigger] line[j]) by {}
    assert(line[11] == SPACE);
    lemma_first_match_is(line, |c: u16| !is_blank(c), 0, 0);
    assert(line.skip(0) =~= line);
    lemma_first_match_is(line, |c: u16| is_blank(c), 0, 11);
    assert(line.take(11) =~= opt);
    let rest = line.skip(11);
    assert(rest =~= seq![SPACE] + digits.push(SPACE) + enc);

    // The identifier follows one space and is ended by another.
    let n = digits.len() as int;
    assert(rest[0] == SPACE);
    assert(rest[1] == digits[0]);
    assert(is_digit(digits[0]));
    lemma_first_match_is(rest, |c: u16| !is_blank(c), 0, 1);
    let tail = rest.skip(1);
    assert(tail =~= digits.push(SPACE) + enc);
    assert forall|j: int| 0 <= j < n implies !is_blank(#[trigger] tail[j]) by {
        assert(tail[j] == digits[j]);
        assert(is_digit(digits[j]));
    }
    assert(tail[n] == SPACE);
    lemma_first_match_is(tail, |c: u16| is_blank(c), 0, n);
    assert(tail.take(n) =~= digits);

    // The command follows, and starts with no blank.
    let after = tail.skip(n);
    assert(after =~= seq![SPACE] + enc);
    assert(after[0] == SPACE);
    if enc.len() > 0 {
        assert(after[1] == enc[0]);
        assert(is_wire_unit(enc[0]));
    }
    lemma_first_match_is(after, |c: u16| !is_blank(c), 0, 1);
    assert(after.skip(1) =~= enc);
}

/// The parameter string of a request holds no NUL and is not empty past the
/// identifier: it can be handed over as a terminated string.
pub proof fn lemma_parameters_no_nul(r: RequestView)
    ensures
        forall|j: int| 0 <= j < r.parameters().len() ==> #[trigger] r.parameters()[j] != 0,
        encode_spec(r.argv()).len() > 0,
{
    let argv = r.argv();
    let digits = decimal_spec(r.requester_pid as nat);
    let enc = encode_spec(argv);
    let line = r.parameters();
    let opt = opt_attach();
    lemma_decimal_spec(r.requester_pid as nat);
    lemma_encode_wire(argv);
    let n = digits.len() as int;
    assert forall|j: int| 0 <= j < line.len() implies #[trigger] line[j] != 0 by {
        if j < 11 {
            assert(line[j] == opt[j]);
        } else if j == 11 {
            assert(line[j] == SPACE);
        } else if j < 12 + n {
            assert(line[j] == digits[j - 12]);
            assert(is_digit(digits[j - 12]));
        } else if j == 12 + n {
            assert(line[j] == SPACE);
        } else {
            assert(line[j] == enc[j - 13 - n]);
            assert(is_wire_unit(enc[j - 13 - n]));
        }
    }
    assert(argv.len() > 0);
    assert(enc == encode_arg(argv[0]).push(SEPARATOR) + encode_spec(argv.skip(1)));
}

/// Appends `units` to `out`.
pub fn append_units(out: &mut Vec<u16>, units: &[u16])
    ensures
        final(out)@ == old(out)@ + units@,
{
    let mut i: usize = 0;
    assert(out@ =~= old(out)@ + units@.take(0));
    while i < units.len()
        invariant
            i <= units@.len(),
            out@ == old(out)@ + units@.take(i as int),
        decreases units@.len() - i,
    {
        out.push(units[i]);
        assert(out@ =~= old(out)@ + units@.take(i + 1));
        i += 1;
    }
    assert(units@.take(i as int) =~= units@);
}

impl ElevationRequest {
    /// Serialises the request into the parameter string of the elevated
    /// process.
    pub fn to_parameters(&self) -> (out: Vec<u16>)
        ensures
            out@ == self@.parameters(),
    {
        let attach: [u16; 11] = [0x2D, 0x2D, 0x61, 0x74, 0x74, 0x61, 0x63, 0x68, 0x2D, 0x69, 0x64];
        assert(attach@ =~= opt_attach());
        let mut out: Vec<u16> = Vec::new();
        append_units(&mut out, attach.as_slice());
        out.push(SPACE);
        let digits = decimal(self.requester_pid);
        append_units(&mut out, digits.as_slice());
        out.push(SPACE);
        let ghost head = out@;
        assert(head =~= opt_attach().push(SPACE) + decimal_spec(self.requester_pid as nat).push(
            SPACE,
        ));
        encode_arg_into(self.target_executable.as_slice(), &mut out);
        out.push(SEPARATOR);
        encode_into(self.target_args.as_slice(), &mut out);
        proof {
            let argv = self@.argv();
            assert(argv[0] == self.target_executable@);
            assert(argv.skip(1) =~= args_view(self.target_args@));
            assert(out@ =~= head + encode_spec(argv));
        }
        out
    }

    /// Makes the request of the process `pid` to run the argument vector
    /// `argv`, whose first argument is the executable. `UsageError` where
    /// `argv` is empty.
    pub fn from_argv(pid: u32, argv: Vec<Vec<u16>>) -> (r: Result<ElevationRequest, ErrorKind>)
        ensures
            argv@.len() == 0 ==> r == Err::<ElevationRequest, ErrorKind>(ErrorKind::UsageError),
            argv@.len() > 0 ==> r is Ok && r->Ok_0@.requester_pid == pid && r->Ok_0@.argv()
                == args_view(argv@),
    {
        let mut argv = argv;
        if argv.len() == 0 {
            return Err(ErrorKind::UsageError);
        }
        let ghost whole = args_view(argv@);
        let executable = argv.remove(0);
        assert(args_view(argv@) =~= whole.skip(1));
        assert(seq![whole[0]] + whole.skip(1) =~= whole);
        Ok(ElevationRequest { requester_pid: pid, target_executable: executable, target_args: argv })
    }

    /// Rebuilds the request from the options of the elevated process.
    /// `UsageError` where the attach identifier is missing, or the command
    /// is no encoded argument vector or an empty one.
    pub fn from_opts(opts: &Opts) -> (r: Result<ElevationRequest, ErrorKind>)
        ensures
            match r {
                Ok(req) => request_spec(opts.attach_id, opts.command@) == Ok::<
                    RequestView,
                    ErrorKind,
                >(req@),
                Err(e) => request_spec(opts.attach_id, opts.command@) == Err::<
                    RequestView,
                    ErrorKind,
                >(e),
            },
    {
        let pid: u32 = match opts.attach_id {
            Some(pid) => pid,
            None => { return Err(ErrorKind::UsageError); },
        };
        match decode(opts.command) {
            Some(argv) => {
                let mut argv = argv;
                if argv.len() == 0 {
                    return Err(ErrorKind::UsageError);
                }
                let ghost whole = args_view(argv@);
                let executable = argv.remove(0);
                assert(args_view(argv@) =~= whole.skip(1));
                Ok(
                    ElevationRequest {
                        requester_pid: pid,
                        target_executable: executable,
                        target_args: argv,
                    },
                )
            },
            None => Err(ErrorKind::UsageError),
        }
    }
}

} // verus!
