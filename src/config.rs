use vstd::prelude::*;
use vstd::string::StringSliceAdditionalSpecFns;
use vstd::utf8::encode_utf8;
use crate::error::InvalidArgError;
use crate::lexer::{is_kw, is_word};

verus! {

/// How the program was asked to run.
pub struct Config {
    /// No load and run banners.
    pub quiet: bool,
    /// Trace each step from the start.
    pub debug: bool,
    /// The program or snapshot to load.
    pub path: String,
}

/// The UTF-8 bytes of argument `k`.
pub open spec fn arg_bytes(args: Seq<String>, k: int) -> Seq<u8> {
    encode_utf8(args[k]@)
}

pub open spec fn is_debug_flag(a: Seq<u8>) -> bool {
    is_kw(a, "-d") || is_kw(a, "--debug")
}

pub open spec fn is_quiet_flag(a: Seq<u8>) -> bool {
    is_kw(a, "-q") || is_kw(a, "--quiet")
}

/// Indices of the arguments among `1..n` that are not flags.
pub open spec fn positional(args: Seq<String>, n: int) -> Seq<int>
    decreases n,
{
    if n <= 1 {
        seq![]
    } else if is_debug_flag(arg_bytes(args, n - 1)) || is_quiet_flag(arg_bytes(args, n - 1)) {
        positional(args, n - 1)
    } else {
        positional(args, n - 1).push(n - 1)
    }
}

/// Whether some argument among `1..n` is a flag that `flag` recognises.
pub open spec fn has_flag(args: Seq<String>, n: int, debug: bool) -> bool {
    exists|k: int|
        1 <= k < n && (if debug {
            is_debug_flag(#[trigger] arg_bytes(args, k))
        } else {
            is_quiet_flag(arg_bytes(args, k))
        })
}

fn flag_kind(a: &String) -> (r: (bool, bool))
    ensures
        r.0 == is_debug_flag(encode_utf8(a@)),
        r.1 == is_quiet_flag(encode_utf8(a@)),
{
    let b = a.as_str().as_bytes();
    let n = b.len();
    let debug = is_word(b, 0, n, "-d") || is_word(b, 0, n, "--debug");
    let quiet = is_word(b, 0, n, "-q") || is_word(b, 0, n, "--quiet");
    assert(b@.subrange(0, n as int) =~= b@);
    (debug, quiet)
}

/// Reads the command line `args`, whose first element is the program's
/// name: flags `-d`/`--debug` and `-q`/`--quiet`, and one path. `None`
/// where no path is given; an error naming the second path where there
/// are two or more.
pub fn parse_args(args: &Vec<String>) -> (r: Result<Option<Config>, Box<InvalidArgError>>)
    ensures
        ({
            let n = args@.len() as int;
            let p = positional(args@, n);
            &&& p.len() == 0 <==> (r is Ok && r->Ok_0 is None)
            &&& p.len() >= 2 <==> r is Err
            &&& r matches Err(e) ==> e.details@ == args@[p[1]]@
            &&& r matches Ok(Some(c)) ==> p.len() == 1 && c.path@ == args@[p[0]]@ && c.debug
                == has_flag(args@, n, true) && c.quiet == has_flag(args@, n, false)
        }),
{
    let mut path: Option<String> = None;
    let mut debug = false;
    let mut quiet = false;
    let ghost mut first: int = 0;
    let mut i: usize = 1;
    while i < args.len()
        invariant
            1 <= i <= args@.len() || (i == 1 && args@.len() == 0),
            positional(args@, i as int).len() <= 1,
            path is None <==> positional(args@, i as int).len() == 0,
            path matches Some(s) ==> s@ == args@[positional(args@, i as int)[0]]@,
            debug == has_flag(args@, i as int, true),
            quiet == has_flag(args@, i as int, false),
        decreases args@.len() - i,
    {
        let (d, q) = flag_kind(&args[i]);
        assert(positional(args@, i + 1) == if d || q {
            positional(args@, i as int)
        } else {
            positional(args@, i as int).push(i as int)
        });
        if d {
            debug = true;
            assert(is_debug_flag(arg_bytes(args@, i as int)));
        }
        if q {
            quiet = true;
            assert(is_quiet_flag(arg_bytes(args@, i as int)));
        }
        if !d && !q {
            if path.is_none() {
                path = Some(args[i].clone());
            } else {
                let e = InvalidArgError::new(args[i].clone());
                proof {
                    lemma_positional_grows(args@, i + 1, args@.len() as int);
                    let whole = positional(args@, args@.len() as int);
                    assert(whole.subrange(0, 2) == positional(args@, i + 1));
                    assert(whole[1] == whole.subrange(0, 2)[1]);
                }
                return Err(e);
            }
        }
        i = i + 1;
    }
    assert(i as int >= args@.len() || args@.len() == 0);
    match path {
        None => Ok(None),
        Some(p) => Ok(Some(Config { quiet, debug, path: p })),
    }
}

/// The positional indices among a shorter prefix start those of a longer one.
proof fn lemma_positional_grows(args: Seq<String>, m: int, n: int)
    requires
        1 <= m <= n,
    ensures
        positional(args, m).len() <= positional(args, n).len(),
        positional(args, n).subrange(0, positional(args, m).len() as int) == positional(args, m),
    decreases n - m,
{
    if m < n {
        lemma_positional_grows(args, m, n - 1);
        assert(positional(args, n).subrange(0, positional(args, m).len() as int) =~= positional(
            args,
            n - 1,
        ).subrange(0, positional(args, m).len() as int));
    } else {
        assert(positional(args, n).subrange(0, positional(args, n).len() as int) =~= positional(args, n));
    }
}

} // verus!
