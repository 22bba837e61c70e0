//! Building what a debuggee is started with: its command line and the
//! attribute value that names its parent.
use vstd::prelude::*;

verus! {

pub const PROC_THREAD_ATTRIBUTE_NUMBER: usize = 0x0000FFFF;

pub const PROC_THREAD_ATTRIBUTE_THREAD: usize = 0x00010000;

pub const PROC_THREAD_ATTRIBUTE_INPUT: usize = 0x00020000;

pub const PROC_THREAD_ATTRIBUTE_ADDITIVE: usize = 0x00040000;

/// The attribute key for attribute number `number`, with the thread, input
/// and additive flags set where the matching argument is non-zero.
#[allow(non_snake_case)]
pub fn ProcThreadAttributeValue(number: usize, thread: usize, input: usize, additive: usize) -> (r:
    usize)
    ensures
        r == (number & PROC_THREAD_ATTRIBUTE_NUMBER) | (if thread != 0 {
            PROC_THREAD_ATTRIBUTE_THREAD
        } else {
            0usize
        }) | (if input != 0 {
            PROC_THREAD_ATTRIBUTE_INPUT
        } else {
            0usize
        }) | (if additive != 0 {
            PROC_THREAD_ATTRIBUTE_ADDITIVE
        } else {
            0usize
        }),
{
    (number & PROC_THREAD_ATTRIBUTE_NUMBER) | (if thread != 0 {
        PROC_THREAD_ATTRIBUTE_THREAD
    } else {
        0
    }) | (if input != 0 {
        PROC_THREAD_ATTRIBUTE_INPUT
    } else {
        0
    }) | (if additive != 0 {
        PROC_THREAD_ATTRIBUTE_ADDITIVE
    } else {
        0
    })
}

/// Whether a character has Unicode's White_Space property: tab through
/// carriage return, space, next line, no-break space, ogham space mark, the
/// spaces from en quad to hair space, line and paragraph separators, narrow
/// no-break space, medium mathematical space, and ideographic space.
pub open spec fn white_space(c: char) -> bool {
    let u = c as u32;
    (0x09 <= u <= 0x0d) || u == 0x20 || u == 0x85 || u == 0xa0 || u == 0x1680 || (0x2000 <= u
        <= 0x200a) || u == 0x2028 || u == 0x2029 || u == 0x202f || u == 0x205f || u == 0x3000
}

/// Whether `c` has the White_Space property, as `char::is_whitespace` says.
pub fn is_white_space(c: char) -> (r: bool)
    ensures
        r == white_space(c),
{
    let u = c as u32;
    (0x09 <= u && u <= 0x0d) || u == 0x20 || u == 0x85 || u == 0xa0 || u == 0x1680 || (0x2000 <= u
        && u <= 0x200a) || u == 0x2028 || u == 0x2029 || u == 0x202f || u == 0x205f || u == 0x3000
}

/// `s` without its leading white space.
pub open spec fn trim_start_ws(s: Seq<char>) -> Seq<char>
    decreases s.len(),
{
    if s.len() > 0 && white_space(s[0]) {
        trim_start_ws(s.drop_first())
    } else {
        s
    }
}

/// `s` without its trailing white space.
pub open spec fn trim_end_ws(s: Seq<char>) -> Seq<char>
    decreases s.len(),
{
    if s.len() > 0 && white_space(s.last()) {
        trim_end_ws(s.drop_last())
    } else {
        s
    }
}

/// `s` without leading and trailing white space.
pub open spec fn trim_ws(s: Seq<char>) -> Seq<char> {
    trim_end_ws(trim_start_ws(s))
}

/// Relies on `str::trim`: removes leading and trailing characters with the
/// White_Space property.
#[verifier::external_body]
fn trimmed(s: &str) -> (r: String)
    ensures
        r@ == trim_ws(s@),
{
    s.trim().to_string()
}

pub open spec fn has_white_space(s: Seq<char>) -> bool {
    exists|i: int| 0 <= i < s.len() && white_space(#[trigger] s[i])
}

/// The program path as it stands in a command line: trimmed, and in double
/// quotes where it holds white space.
pub open spec fn quoted_program(path: Seq<char>) -> Seq<char> {
    if has_white_space(trim_ws(path)) {
        seq!['"'] + trim_ws(path) + seq!['"']
    } else {
        trim_ws(path)
    }
}

/// The arguments joined with single spaces.
pub open spec fn join_args(args: Seq<Seq<char>>) -> Seq<char>
    decreases args.len(),
{
    if args.len() == 0 {
        Seq::empty()
    } else if args.len() == 1 {
        args[0]
    } else {
        join_args(args.drop_last()) + seq![' '] + args.last()
    }
}

/// The texts of a slice of string slices.
pub open spec fn arg_views(args: Seq<&str>) -> Seq<Seq<char>> {
    args.map_values(|a: &str| a@)
}

/// The command line that starts `path` with `args`.
pub open spec fn command_line(path: Seq<char>, args: Seq<Seq<char>>) -> Seq<char> {
    if args.len() == 0 {
        quoted_program(path)
    } else {
        quoted_program(path) + seq![' '] + join_args(args)
    }
}

/// Builds the command line that starts `path` with `args`: the path trimmed
/// and quoted where it holds white space, then the arguments, each after a
/// single space.
pub fn build_command_line(path: &str, args: &[&str]) -> (r: String)
    ensures
        r@ == command_line(path@, arg_views(args@)),
{
    let mut cmdline = trimmed(path);
    let n = cmdline.as_str().unicode_len();
    let mut ws = false;
    let mut i: usize = 0;
    while i < n
        invariant
            i <= n == cmdline@.len(),
            cmdline@ == trim_ws(path@),
            ws == exists|j: int| 0 <= j < i && white_space(#[trigger] cmdline@[j]),
        decreases n - i,
    {
        if is_white_space(cmdline.as_str().get_char(i)) {
            ws = true;
        }
        i += 1;
    }
    if ws {
        let mut q = String::new();
        let quote = "\"";
        proof {
            reveal_strlit("\"");
        }
        q.append(quote);
        q.append(cmdline.as_str());
        q.append(quote);
        cmdline = q;
    }
    proof {
        assert(cmdline@ =~= quoted_program(path@));
    }
    if args.len() > 0 {
        let space = " ";
        proof {
            reveal_strlit(" ");
        }
        let mut k: usize = 0;
        while k < args.len()
            invariant
                k <= args@.len(),
                args@.len() > 0,
                k == 0 ==> cmdline@ == quoted_program(path@),
                k > 0 ==> cmdline@ == quoted_program(path@) + seq![' '] + join_args(
                    arg_views(args@.subrange(0, k as int)),
                ),
                space@ == seq![' '],
            decreases args@.len() - k,
        {
            let ghost before = cmdline@;
            cmdline.append(space);
            cmdline.append(args[k]);
            proof {
                let sub = arg_views(args@.subrange(0, k as int + 1));
                assert(sub.drop_last() =~= arg_views(args@.subrange(0, k as int)));
                assert(sub.last() == args@[k as int]@);
                if k == 0 {
                    assert(sub =~= seq![args@[0]@]);
                    assert(cmdline@ =~= quoted_program(path@) + seq![' '] + join_args(sub));
                } else {
                    assert(cmdline@ =~= quoted_program(path@) + seq![' '] + join_args(sub));
                }
            }
            k += 1;
        }
        proof {
            assert(args@.subrange(0, args@.len() as int) =~= args@);
        }
    }
    cmdline
}

} // verus!
