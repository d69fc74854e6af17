//! Argument classification: each recognized argument is `if=<specifier>` or
//! `of=<specifier>`; anything else, or a missing side, is a usage error. A
//! later `if=`/`of=` replaces an earlier one. Classification is pure; the
//! surrounding binary reads the real argument list and reports the errors.

use vstd::prelude::*;
use crate::endpoint::{Endpoint, EndpointModel, HostModel, SockAddr, resolve, spec_resolve};

verus! {

/// Where bytes come from: a file to open, or an address to connect to.
#[derive(Debug, Clone)]
pub enum Input {
    Path(Vec<u8>),
    ReceivingClient(SockAddr),
}

/// Ghost model of an input.
pub enum InputModel {
    Path(Seq<u8>),
    ReceivingClient(HostModel, u16),
}

impl View for Input {
    type V = InputModel;

    open spec fn view(&self) -> InputModel {
        match self {
            Input::Path(p) => InputModel::Path(p@),
            Input::ReceivingClient(sa) => InputModel::ReceivingClient(sa.host@, sa.port),
        }
    }
}

impl Input {
    pub open spec fn wf(&self) -> bool {
        match self {
            Input::Path(_) => true,
            Input::ReceivingClient(sa) => sa.wf(),
        }
    }
}

/// Where bytes go: a file to write once, or an address to serve from.
#[derive(Debug, Clone)]
pub enum Output {
    Path(Vec<u8>),
    SendingServer(SockAddr),
}

/// Ghost model of an output.
pub enum OutputModel {
    Path(Seq<u8>),
    SendingServer(HostModel, u16),
}

impl View for Output {
    type V = OutputModel;

    open spec fn view(&self) -> OutputModel {
        match self {
            Output::Path(p) => OutputModel::Path(p@),
            Output::SendingServer(sa) => OutputModel::SendingServer(sa.host@, sa.port),
        }
    }
}

impl Output {
    pub open spec fn wf(&self) -> bool {
        match self {
            Output::Path(_) => true,
            Output::SendingServer(sa) => sa.wf(),
        }
    }
}

/// The input an endpoint stands for.
pub open spec fn input_of(e: EndpointModel) -> InputModel {
    match e {
        EndpointModel::FilePath(p) => InputModel::Path(p),
        EndpointModel::Network(h, p) => InputModel::ReceivingClient(h, p),
    }
}

/// The output an endpoint stands for.
pub open spec fn output_of(e: EndpointModel) -> OutputModel {
    match e {
        EndpointModel::FilePath(p) => OutputModel::Path(p),
        EndpointModel::Network(h, p) => OutputModel::SendingServer(h, p),
    }
}

impl Input {
    /// A resolved input endpoint, read as a source description.
    pub fn from_endpoint(e: Endpoint) -> (r: Input)
        ensures
            r@ == input_of(e@),
            e.wf() ==> r.wf(),
    {
        match e {
            Endpoint::FilePath(p) => Input::Path(p),
            Endpoint::NetworkAddress(sa) => Input::ReceivingClient(sa),
        }
    }
}

impl Output {
    /// A resolved output endpoint, read as a sink description.
    pub fn from_endpoint(e: Endpoint) -> (r: Output)
        ensures
            r@ == output_of(e@),
            e.wf() ==> r.wf(),
    {
        match e {
            Endpoint::FilePath(p) => Output::Path(p),
            Endpoint::NetworkAddress(sa) => Output::SendingServer(sa),
        }
    }
}

/// Why an argument list is rejected: an unrecognized or missing argument
/// (usage), or a specifier whose network address is malformed.
#[derive(Debug, PartialEq, Eq, Structural)]
pub enum CliError {
    Usage,
    Parse,
}

/// The `if=` marker.
pub open spec fn if_prefix() -> Seq<u8> {
    seq![105u8, 102u8, 61u8]
}

/// The `of=` marker.
pub open spec fn of_prefix() -> Seq<u8> {
    seq![111u8, 102u8, 61u8]
}

pub open spec fn has_if_prefix(s: Seq<u8>) -> bool {
    s.len() >= 3 && s.subrange(0, 3) == if_prefix()
}

pub open spec fn has_of_prefix(s: Seq<u8>) -> bool {
    s.len() >= 3 && s.subrange(0, 3) == of_prefix()
}

/// Classification of the arguments still to read, given the sides seen so
/// far: each argument must carry one of the two markers and resolve; at the
/// end both sides must be present.
pub open spec fn spec_parse_args_from(
    args: Seq<Seq<u8>>,
    inp: Option<InputModel>,
    outp: Option<OutputModel>,
) -> Result<(InputModel, OutputModel), CliError>
    decreases args.len(),
{
    if args.len() == 0 {
        match (inp, outp) {
            (Some(i), Some(o)) => Ok((i, o)),
            _ => Err(CliError::Usage),
        }
    } else {
        let a = args.first();
        if has_if_prefix(a) {
            match spec_resolve(a.subrange(3, a.len() as int)) {
                Some(e) => spec_parse_args_from(args.drop_first(), Some(input_of(e)), outp),
                None => Err(CliError::Parse),
            }
        } else if has_of_prefix(a) {
            match spec_resolve(a.subrange(3, a.len() as int)) {
                Some(e) => spec_parse_args_from(args.drop_first(), inp, Some(output_of(e))),
                None => Err(CliError::Parse),
            }
        } else {
            Err(CliError::Usage)
        }
    }
}

/// Classification of a whole argument list.
pub open spec fn spec_parse_args(args: Seq<Seq<u8>>) -> Result<
    (InputModel, OutputModel),
    CliError,
> {
    spec_parse_args_from(args, None, None)
}

/// Check for a three-byte marker.
fn has_prefix3(s: &[u8], b0: u8, b1: u8, b2: u8) -> (r: bool)
    ensures
        r == (s@.len() >= 3 && s@.subrange(0, 3) == seq![b0, b1, b2]),
{
    if s.len() < 3 {
        return false;
    }
    if s[0] == b0 && s[1] == b1 && s[2] == b2 {
        assert(s@.subrange(0, 3) =~= seq![b0, b1, b2]);
        true
    } else {
        assert(s@.subrange(0, 3) != seq![b0, b1, b2]) by {
            if s@.subrange(0, 3) == seq![b0, b1, b2] {
                assert(forall|q: int| 0 <= q < 3 ==> s@[q] == #[trigger] s@.subrange(0, 3)[q]);
            }
        }
        false
    }
}

/// Classify an argument list into the input and output descriptions, exactly
/// as `spec_parse_args` reads it. Performs no I/O.
pub fn parse_args(args: &Vec<Vec<u8>>) -> (r: Result<(Input, Output), CliError>)
    ensures
        ({
            let m = spec_parse_args(args@.map_values(|a: Vec<u8>| a@));
            match r {
                Ok(pair) => m == Ok::<_, CliError>((pair.0@, pair.1@)) && pair.0.wf()
                    && pair.1.wf(),
                Err(e) => m == Err::<(InputModel, OutputModel), _>(e),
            }
        }),
{
    let ghost model = args@.map_values(|a: Vec<u8>| a@);
    let mut cur_in: Option<Input> = None;
    let mut cur_out: Option<Output> = None;
    let mut i: usize = 0;
    proof {
        assert(model.skip(0) =~= model);
    }
    while i < args.len()
        invariant
            0 <= i <= args@.len(),
            model == args@.map_values(|a: Vec<u8>| a@),
            spec_parse_args_from(model, None, None) == spec_parse_args_from(
                model.skip(i as int),
                match cur_in {
                    Some(x) => Some(x@),
                    None => None,
                },
                match cur_out {
                    Some(x) => Some(x@),
                    None => None,
                },
            ),
            match cur_in {
                Some(x) => x.wf(),
                None => true,
            },
            match cur_out {
                Some(x) => x.wf(),
                None => true,
            },
        decreases args@.len() - i,
    {
        let a: &Vec<u8> = &args[i];
        proof {
            assert(model.skip(i as int).first() == model[i as int]);
            assert(model.skip(i as int).drop_first() =~= model.skip(i + 1));
        }
        let n = a.len();
        if has_prefix3(a.as_slice(), 105, 102, 61) {
            let rest = vstd::slice::slice_subrange(a.as_slice(), 3, n);
            match resolve(rest) {
                Ok(e) => {
                    cur_in = Some(Input::from_endpoint(e));
                },
                Err(_) => {
                    return Err(CliError::Parse);
                },
            }
        } else if has_prefix3(a.as_slice(), 111, 102, 61) {
            let rest = vstd::slice::slice_subrange(a.as_slice(), 3, n);
            match resolve(rest) {
                Ok(e) => {
                    cur_out = Some(Output::from_endpoint(e));
                },
                Err(_) => {
                    return Err(CliError::Parse);
                },
            }
        } else {
            return Err(CliError::Usage);
        }
        i = i + 1;
    }
    proof {
        assert(model.skip(i as int) =~= Seq::<Seq<u8>>::empty());
    }
    match (cur_in, cur_out) {
        (Some(inp), Some(outp)) => Ok((inp, outp)),
        _ => Err(CliError::Usage),
    }
}

} // verus!
