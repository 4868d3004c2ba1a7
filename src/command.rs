use vstd::prelude::*;

verus! {

/// Runs external programs. `Ok` carries the program's standard output, `Err`
/// its standard error (or why it could not be started); a program that exits
/// with failure gives `Err`.
pub trait CommandExecutor {
    /// Runs `command` with `args` split at each single space.
    fn run_command(&self, command: &str, args: &str) -> Result<String, String>;

    /// Whether `command` with `args` (split at each single space) exits with success.
    fn command_success(&self, command: &str, args: &str) -> bool;

    /// Runs `command` with exactly the arguments `args`.
    fn run_explicit_command(&self, command: &str, args: Vec<&str>) -> Result<String, String>;
}

/// The dry-run executor: it starts nothing, reports success every time and
/// answers with a fixed placeholder output.
pub struct DebugCommandExecutor;

impl CommandExecutor for DebugCommandExecutor {
    fn run_command(&self, _command: &str, _args: &str) -> (r: Result<String, String>)
        ensures
            r matches Ok(out) && out@ == "mocked output"@,
    {
        Ok("mocked output".to_owned())
    }

    fn command_success(&self, _command: &str, _args: &str) -> (r: bool)
        ensures
            r,
    {
        true
    }

    fn run_explicit_command(&self, _command: &str, _args: Vec<&str>) -> (r: Result<String, String>)
        ensures
            r matches Ok(out) && out@ == "mocked output"@,
    {
        Ok("mocked output".to_owned())
    }
}

/// `args` cut at each single space, as `str::split(" ")` cuts it: two spaces in
/// a row give an empty piece, and the empty string gives one empty piece.
pub open spec fn split_spaces(s: Seq<char>) -> Seq<Seq<char>>
    decreases s.len(),
{
    if s.len() == 0 {
        seq![seq![]]
    } else {
        let r = split_spaces(s.drop_last());
        if s.last() == ' ' {
            r.push(seq![])
        } else {
            r.update(r.len() - 1, r.last().push(s.last()))
        }
    }
}

/// The argument vector of a space-separated argument string.
pub fn split_args(args: &str) -> (r: Vec<String>)
    ensures
        r@.map_values(|a: String| a@) == split_spaces(args@),
{
    let ghost s = args@;
    let n = args.unicode_len();
    let mut parts: Vec<String> = Vec::new();
    let mut start: usize = 0;
    let mut i: usize = 0;
    assert(s.take(0) =~= seq![]);
    assert(s.subrange(0, 0) =~= seq![]);
    while i < n
        invariant
            s == args@,
            n == s.len(),
            0 <= start <= i <= n,
            split_spaces(s.take(i as int)) == parts@.map_values(|a: String| a@).push(
                s.subrange(start as int, i as int),
            ),
        decreases n - i,
    {
        let ghost before = parts@.map_values(|a: String| a@);
        assert(s.take(i + 1).drop_last() =~= s.take(i as int));
        assert(s.take(i + 1).last() == s[i as int]);
        if args.get_char(i) == ' ' {
            parts.push(args.substring_char(start, i).to_owned());
            assert(parts@.map_values(|a: String| a@) =~= before.push(
                s.subrange(start as int, i as int),
            ));
            start = i + 1;
            assert(s.subrange(start as int, i + 1) =~= seq![]);
        } else {
            assert(s.subrange(start as int, i + 1) =~= s.subrange(start as int, i as int).push(
                s[i as int],
            ));
        }
        i = i + 1;
    }
    let ghost before = parts@.map_values(|a: String| a@);
    parts.push(args.substring_char(start, n).to_owned());
    assert(s.take(n as int) =~= s);
    assert(parts@.map_values(|a: String| a@) =~= before.push(s.subrange(start as int, n as int)));
    parts
}

} // verus!
