use vstd::prelude::*;
use vstd::string::*;

verus! {

/// The commands that the shell implements itself.
#[derive(Clone, Copy, Debug, PartialEq, Eq, Structural)]
pub enum BuiltinKind {
    Pwd,
    Cd,
    Jobs,
    Fg,
    Bg,
    Echo,
}

/// A builtin resolved by name when a command line is parsed.
#[derive(Clone, Copy, Debug, PartialEq, Eq, Structural)]
pub struct ShellBuiltin {
    pub kind: BuiltinKind,
}

impl ShellBuiltin {
    pub fn new(kind: BuiltinKind) -> (r: ShellBuiltin)
        ensures
            r.kind == kind,
    {
        ShellBuiltin { kind }
    }
}

/// The builtin called `name`, if there is one.
pub open spec fn builtin_named(name: Seq<char>) -> Option<BuiltinKind> {
    if name == seq!['p', 'w', 'd'] {
        Some(BuiltinKind::Pwd)
    } else if name == seq!['c', 'd'] {
        Some(BuiltinKind::Cd)
    } else if name == seq!['j', 'o', 'b', 's'] {
        Some(BuiltinKind::Jobs)
    } else if name == seq!['f', 'g'] {
        Some(BuiltinKind::Fg)
    } else if name == seq!['b', 'g'] {
        Some(BuiltinKind::Bg)
    } else if name == seq!['e', 'c', 'h', 'o'] {
        Some(BuiltinKind::Echo)
    } else {
        None
    }
}

pub open spec fn builtin_of(name: Seq<char>) -> Option<ShellBuiltin> {
    match builtin_named(name) {
        Some(kind) => Some(ShellBuiltin { kind }),
        None => None,
    }
}

/// Character-wise equality of two strings.
pub fn str_equals(a: &str, b: &str) -> (r: bool)
    ensures
        r == (a@ == b@),
{
    let n = a.unicode_len();
    if n != b.unicode_len() {
        return false;
    }
    let mut i: usize = 0;
    while i < n
        invariant
            n == a@.len(),
            n == b@.len(),
            i <= n,
            a@.take(i as int) == b@.take(i as int),
        decreases n - i,
    {
        if a.get_char(i) != b.get_char(i) {
            return false;
        }
        assert(a@.take(i + 1 as int) =~= a@.take(i as int).push(a@[i as int]));
        assert(b@.take(i + 1 as int) =~= b@.take(i as int).push(b@[i as int]));
        i = i + 1;
    }
    assert(a@ =~= a@.take(n as int));
    assert(b@ =~= b@.take(n as int));
    true
}

/// Looks a builtin up by its exact name.
pub fn builtin_find_callback(s: &str) -> (r: Option<ShellBuiltin>)
    ensures
        r == builtin_of(s@),
{
    proof {
        reveal_strlit("pwd");
        reveal_strlit("cd");
        reveal_strlit("jobs");
        reveal_strlit("fg");
        reveal_strlit("bg");
        reveal_strlit("echo");
        assert("pwd"@ =~= seq!['p', 'w', 'd']);
        assert("cd"@ =~= seq!['c', 'd']);
        assert("jobs"@ =~= seq!['j', 'o', 'b', 's']);
        assert("fg"@ =~= seq!['f', 'g']);
        assert("bg"@ =~= seq!['b', 'g']);
        assert("echo"@ =~= seq!['e', 'c', 'h', 'o']);
    }
    if str_equals(s, "pwd") {
        Some(ShellBuiltin::new(BuiltinKind::Pwd))
    } else if str_equals(s, "cd") {
        Some(ShellBuiltin::new(BuiltinKind::Cd))
    } else if str_equals(s, "jobs") {
        Some(ShellBuiltin::new(BuiltinKind::Jobs))
    } else if str_equals(s, "fg") {
        Some(ShellBuiltin::new(BuiltinKind::Fg))
    } else if str_equals(s, "bg") {
        Some(ShellBuiltin::new(BuiltinKind::Bg))
    } else if str_equals(s, "echo") {
        Some(ShellBuiltin::new(BuiltinKind::Echo))
    } else {
        None
    }
}

/// The pieces of `s` between slashes, in order (one empty piece for an empty `s`).
pub open spec fn split_slash(s: Seq<char>) -> Seq<Seq<char>>
    decreases s.len(),
{
    if s.len() == 0 {
        seq![Seq::empty()]
    } else {
        let pieces = split_slash(s.drop_last());
        if s.last() == '/' {
            pieces.push(Seq::empty())
        } else {
            pieces.update(pieces.len() - 1, pieces.last().push(s.last()))
        }
    }
}

/// Index of the last slash of `s`, or -1.
pub open spec fn last_slash(s: Seq<char>) -> int
    decreases s.len(),
{
    if s.len() == 0 {
        -1
    } else if s.last() == '/' {
        s.len() - 1
    } else {
        last_slash(s.drop_last())
    }
}

/// `path` without its last component; the root when nothing is left.
pub open spec fn parent_dir(path: Seq<char>) -> Seq<char> {
    let p = if last_slash(path) >= 0 { path.take(last_slash(path)) } else { Seq::empty() };
    if p.len() == 0 {
        seq!['/']
    } else {
        p
    }
}

/// One step of a directory change: an empty piece and `.` stay, `..` goes
/// up (but not above the root), and a name goes down.
pub open spec fn cd_piece(path: Seq<char>, piece: Seq<char>) -> Seq<char> {
    if piece.len() == 0 || piece == seq!['.'] {
        path
    } else if piece == seq!['.', '.'] {
        if path.len() == 1 {
            path
        } else {
            parent_dir(path)
        }
    } else {
        (if path.len() != 1 { path.push('/') } else { path }) + piece
    }
}

pub open spec fn cd_walk(start: Seq<char>, pieces: Seq<Seq<char>>) -> Seq<char>
    decreases pieces.len(),
{
    if pieces.len() == 0 {
        start
    } else {
        cd_piece(cd_walk(start, pieces.drop_last()), pieces.last())
    }
}

/// The directory that `cd arg` leads to from `cwd`: from the root when `arg`
/// starts with a slash (or is empty), else from `cwd`, one piece at a time.
pub open spec fn cd_target(cwd: Seq<char>, arg: Seq<char>) -> Seq<char> {
    if arg.len() == 0 || arg[0] == '/' {
        cd_walk(seq!['/'], split_slash(arg))
    } else {
        cd_walk(cwd, split_slash(arg))
    }
}

proof fn lemma_split_nonempty(s: Seq<char>)
    ensures
        split_slash(s).len() >= 1,
    decreases s.len(),
{
    if s.len() > 0 {
        lemma_split_nonempty(s.drop_last());
    }
}

fn to_string(s: &str) -> (r: String)
    ensures
        r@ == s@,
{
    String::from_str(s)
}

/// `path` after one piece of a directory change.
fn apply_piece(path: String, piece: &str) -> (r: String)
    ensures
        r@ == cd_piece(path@, piece@),
{
    proof {
        reveal_strlit(".");
        reveal_strlit("..");
        reveal_strlit("/");
        assert("."@ =~= seq!['.']);
        assert(".."@ =~= seq!['.', '.']);
        assert("/"@ =~= seq!['/']);
    }
    let plen = path.as_str().unicode_len();
    if piece.unicode_len() == 0 || str_equals(piece, ".") {
        path
    } else if str_equals(piece, "..") {
        if plen == 1 {
            return path;
        }
        let mut i: usize = plen;
        assert(path@.take(plen as int) =~= path@);
        while i > 0
            invariant
                i <= plen,
                plen == path@.len(),
                last_slash(path@) == last_slash(path@.take(i as int)),
            ensures
                i <= plen,
                last_slash(path@) == last_slash(path@.take(i as int)),
                i > 0 ==> path@[i - 1] == '/',
            decreases i,
        {
            assert(path@.take(i as int).drop_last() =~= path@.take(i - 1 as int));
            if path.as_str().get_char(i - 1) == '/' {
                break;
            }
            i = i - 1;
        }
        proof {
            if i == 0 {
                assert(path@.take(0).len() == 0);
            }
        }
        let cut = if i > 0 {
            i - 1
        } else {
            0
        };
        assert(i > 0 ==> path@.take(i as int).last() == '/');
        assert(i > 0 ==> last_slash(path@) == i - 1);
        let p = path.as_str().substring_char(0, cut);
        if cut == 0 {
            to_string("/")
        } else {
            to_string(p)
        }
    } else {
        let mut r = path;
        if plen != 1 {
            r.append("/");
        }
        r.append(piece);
        r
    }
}

/// Resolves the argument of `cd` against the tracked current directory.
pub fn resolve_cd(cwd: &str, arg: &str) -> (r: String)
    ensures
        r@ == cd_target(cwd@, arg@),
{
    proof {
        lemma_split_nonempty(arg@);
        reveal_strlit("/");
        assert("/"@ =~= seq!['/']);
    }
    let n = arg.unicode_len();
    let absolute = n == 0 || arg.get_char(0) == '/';
    let mut path = if absolute {
        to_string("/")
    } else {
        to_string(cwd)
    };
    let ghost start = path@;
    let mut piece_start: usize = 0;
    let mut i: usize = 0;
    assert(split_slash(arg@.take(0)) =~= seq![Seq::<char>::empty()]);
    assert(cd_walk(start, split_slash(arg@.take(0)).drop_last()) == start);
    while i < n
        invariant
            n == arg@.len(),
            piece_start <= i <= n,
            split_slash(arg@.take(i as int)).len() >= 1,
            split_slash(arg@.take(i as int)).last() == arg@.subrange(piece_start as int, i as int),
            path@ == cd_walk(start, split_slash(arg@.take(i as int)).drop_last()),
        decreases n - i,
    {
        let c = arg.get_char(i);
        let ghost pieces = split_slash(arg@.take(i as int));
        assert(arg@.take(i + 1 as int).drop_last() =~= arg@.take(i as int));
        if c == '/' {
            let piece = arg.substring_char(piece_start, i);
            path = apply_piece(path, piece);
            piece_start = i + 1;
            assert(split_slash(arg@.take(i + 1 as int)).drop_last() =~= pieces);
            assert(arg@.subrange(piece_start as int, i + 1 as int) =~= Seq::<char>::empty());
        } else {
            assert(split_slash(arg@.take(i + 1 as int)).drop_last() =~= pieces.drop_last());
            assert(arg@.subrange(piece_start as int, i + 1 as int) =~= arg@.subrange(
                piece_start as int,
                i as int,
            ).push(c));
        }
        i = i + 1;
    }
    let piece = arg.substring_char(piece_start, n);
    assert(arg@.take(n as int) =~= arg@);
    apply_piece(path, piece)
}

/// Words joined by single spaces.
pub open spec fn join_words(ws: Seq<Seq<char>>) -> Seq<char>
    decreases ws.len(),
{
    if ws.len() == 0 {
        Seq::empty()
    } else if ws.len() == 1 {
        ws[0]
    } else {
        join_words(ws.drop_last()) + seq![' '] + ws.last()
    }
}

/// What `echo` writes: its arguments joined by spaces and a newline; nothing
/// at all without arguments.
pub fn echo_text(args: &Vec<String>) -> (r: Option<String>)
    ensures
        args@.len() == 0 ==> r.is_none(),
        args@.len() > 0 ==> r.is_some() && r->Some_0@ == join_words(args@.map_values(|a: String| a@)) + seq!['\n'],
{
    if args.len() == 0 {
        return None;
    }
    proof {
        reveal_strlit(" ");
        reveal_strlit("\n");
        assert(" "@ =~= seq![' ']);
        assert("\n"@ =~= seq!['\n']);
    }
    let ghost ws = args@.map_values(|a: String| a@);
    let mut out = args[0].clone();
    let mut i: usize = 1;
    assert(ws.take(1) =~= seq![ws[0]]);
    while i < args.len()
        invariant
            1 <= i <= args@.len(),
            ws == args@.map_values(|a: String| a@),
            out@ == join_words(ws.take(i as int)),
        decreases args@.len() - i,
    {
        proof {
            reveal_strlit(" ");
            assert(" "@ =~= seq![' ']);
        }
        out.append(" ");
        out.append(args[i].as_str());
        assert(ws.take(i + 1 as int).drop_last() =~= ws.take(i as int));
        assert(ws.take(i + 1 as int).last() == args@[i as int]@);
        assert(join_words(ws.take(i + 1 as int)) == join_words(ws.take(i as int)) + seq![' '] + args@[i as int]@);
        i = i + 1;
    }
    assert(ws.take(i as int) =~= ws);
    out.append("\n");
    Some(out)
}

/// The digits of a number: what follows an optional leading `+`.
pub open spec fn digits_of(s: Seq<char>) -> Seq<char> {
    if s.len() > 0 && s[0] == '+' {
        s.drop_first()
    } else {
        s
    }
}

/// One or more ASCII decimal digits.
pub open spec fn all_digits(d: Seq<char>) -> bool {
    d.len() > 0 && forall|i: int| 0 <= i < d.len() ==> '0' <= #[trigger] d[i] && d[i] <= '9'
}

/// The value of a string of decimal digits.
pub open spec fn decimal_value(d: Seq<char>) -> nat
    decreases d.len(),
{
    if d.len() == 0 {
        0
    } else {
        decimal_value(d.drop_last()) * 10 + ((d.last() as int) - ('0' as int)) as nat
    }
}

/// A `usize` written in decimal, with an optional `+`, that fits.
pub open spec fn parsed_usize(s: Seq<char>) -> Option<usize> {
    let d = digits_of(s);
    if all_digits(d) && decimal_value(d) <= usize::MAX {
        Some(decimal_value(d) as usize)
    } else {
        None
    }
}

/// Relies on `str::parse::<usize>`: it accepts an optional `+` and then one
/// or more ASCII digits whose value fits, and rejects anything else.
#[verifier::external_body]
fn parse_usize(s: &str) -> (r: Option<usize>)
    ensures
        r == parsed_usize(s@),
{
    s.parse::<usize>().ok()
}

/// The job number that `fg` and `bg` act on: the first argument, or job 1
/// without one; `None` when the argument is not a number.
pub fn job_number_arg(args: &Vec<String>) -> (r: Option<usize>)
    ensures
        args@.len() == 0 ==> r == Some(1usize),
        args@.len() > 0 ==> r == parsed_usize(args@[0]@),
{
    if args.len() == 0 {
        Some(1)
    } else {
        parse_usize(args[0].as_str())
    }
}

} // verus!
