use vstd::prelude::*;

verus! {

/// The decimal digit character for `d < 10`.
pub open spec fn digit_char(d: nat) -> char {
    (d + 48) as char
}

/// The decimal representation of `n`, without sign or leading zeros.
pub open spec fn decimal(n: nat) -> Seq<char>
    decreases n,
{
    if n < 10 {
        seq![digit_char(n)]
    } else {
        decimal(n / 10).push(digit_char(n % 10))
    }
}

/// The arguments joined by single spaces, as the device shell receives them.
pub open spec fn command_line(args: Seq<Seq<char>>) -> Seq<char>
    decreases args.len(),
{
    if args.len() == 0 {
        Seq::empty()
    } else if args.len() == 1 {
        args[0]
    } else {
        command_line(args.drop_last()) + seq![' '] + args.last()
    }
}

fn digit_str(d: u32) -> (r: &'static str)
    requires
        d < 10,
    ensures
        r@ == seq![digit_char(d as nat)],
{
    proof {
        reveal_strlit("0");
        reveal_strlit("1");
        reveal_strlit("2");
        reveal_strlit("3");
        reveal_strlit("4");
        reveal_strlit("5");
        reveal_strlit("6");
        reveal_strlit("7");
        reveal_strlit("8");
        reveal_strlit("9");
    }
    let r = match d {
        0 => "0",
        1 => "1",
        2 => "2",
        3 => "3",
        4 => "4",
        5 => "5",
        6 => "6",
        7 => "7",
        8 => "8",
        _ => "9",
    };
    assert(r@ =~= seq![digit_char(d as nat)]);
    r
}

/// Appends the decimal representation of `n` to `s`.
pub fn push_decimal(s: &mut String, n: u32)
    ensures
        final(s)@ == old(s)@ + decimal(n as nat),
    decreases n,
{
    if n >= 10 {
        push_decimal(s, n / 10);
    }
    s.append(digit_str(n % 10));
    assert(final(s)@ =~= old(s)@ + decimal(n as nat));
}

/// The decimal representation of `n` as a string.
pub fn decimal_string(n: u32) -> (r: String)
    ensures
        r@ == decimal(n as nat),
{
    let mut s = String::new();
    push_decimal(&mut s, n);
    assert(s@ =~= decimal(n as nat));
    s
}

/// The text with every double quote preceded by a backslash; nothing else changes.
pub open spec fn escape_quotes(t: Seq<char>) -> Seq<char>
    decreases t.len(),
{
    if t.len() == 0 {
        Seq::empty()
    } else if t.last() == '"' {
        escape_quotes(t.drop_last()) + seq!['\\', '"']
    } else {
        escape_quotes(t.drop_last()).push(t.last())
    }
}

/// Joins the arguments with single spaces into one shell command line.
pub fn join_args(args: &Vec<String>) -> (r: String)
    ensures
        r@ == command_line(args.deep_view()),
{
    let mut r = String::new();
    let mut i: usize = 0;
    while i < args.len()
        invariant
            i <= args.len(),
            r@ == command_line(args.deep_view().take(i as int)),
        decreases args.len() - i,
    {
        let ghost before = args.deep_view().take(i as int);
        proof {
            reveal_strlit(" ");
        }
        if i > 0 {
            r.append(" ");
        }
        r.append(args[i].as_str());
        proof {
            let after = args.deep_view().take(i as int + 1);
            assert(after.drop_last() =~= before);
            assert(r@ =~= command_line(after));
        }
        i = i + 1;
    }
    assert(args.deep_view().take(i as int) =~= args.deep_view());
    r
}

/// Escapes every double quote of `text` with a backslash.
pub fn escape_text(text: &str) -> (r: String)
    ensures
        r@ == escape_quotes(text@),
{
    let n = text.unicode_len();
    let mut r = String::new();
    let mut start: usize = 0;
    let mut i: usize = 0;
    while i < n
        invariant
            n == text@.len(),
            start <= i <= n,
            r@ + text@.subrange(start as int, i as int) == escape_quotes(text@.take(i as int)),
        decreases n - i,
    {
        let c = text.get_char(i);
        proof {
            reveal_strlit("\\\"");
            let t = text@.take(i as int + 1);
            assert(t.drop_last() =~= text@.take(i as int));
        }
        if c == '"' {
            r.append(text.substring_char(start, i));
            r.append("\\\"");
            start = i + 1;
            assert(r@ + text@.subrange(start as int, i as int + 1) =~= escape_quotes(
                text@.take(i as int + 1),
            ));
        } else {
            assert(r@ + text@.subrange(start as int, i as int + 1) =~= escape_quotes(
                text@.take(i as int + 1),
            ));
        }
        i = i + 1;
    }
    r.append(text.substring_char(start, n));
    assert(text@.take(n as int) =~= text@);
    r
}

/// `input tap <x> <y>`
pub open spec fn tap_args(x: u32, y: u32) -> Seq<Seq<char>> {
    seq!["input"@, "tap"@, decimal(x as nat), decimal(y as nat)]
}

/// `input swipe <x1> <y1> <x2> <y2> <duration>`
pub open spec fn swipe_args(x1: u32, y1: u32, x2: u32, y2: u32, duration: u32) -> Seq<Seq<char>> {
    seq![
        "input"@,
        "swipe"@,
        decimal(x1 as nat),
        decimal(y1 as nat),
        decimal(x2 as nat),
        decimal(y2 as nat),
        decimal(duration as nat),
    ]
}

/// `input swipe <x> <y> <x> <y> <duration>`: a swipe that stays on one point.
pub open spec fn long_tap_args(x: u32, y: u32, duration: u32) -> Seq<Seq<char>> {
    let px = decimal(x as nat);
    let py = decimal(y as nat);
    seq!["input"@, "swipe"@, px, py, px, py, decimal(duration as nat)]
}

/// `input text <text>`, with the text's double quotes escaped.
pub open spec fn text_args(text: Seq<char>) -> Seq<Seq<char>> {
    seq!["input"@, "text"@, escape_quotes(text)]
}

/// `input keyevent <code>`, followed by `--longpress` when asked for.
pub open spec fn keyevent_args(code: Seq<char>, longpress: bool) -> Seq<Seq<char>> {
    let base = seq!["input"@, "keyevent"@, code];
    if longpress {
        base.push("--longpress"@)
    } else {
        base
    }
}

/// `input roll <x> <y>`
pub open spec fn roll_args(x: u32, y: u32) -> Seq<Seq<char>> {
    seq!["input"@, "roll"@, decimal(x as nat), decimal(y as nat)]
}

/// `wm size`
pub open spec fn size_args() -> Seq<Seq<char>> {
    seq!["wm"@, "size"@]
}

/// `input --help`
pub open spec fn help_args() -> Seq<Seq<char>> {
    seq!["input"@, "--help"@]
}

/// The command line of a tap at `(x, y)`.
pub fn tap_command(x: u32, y: u32) -> (r: String)
    ensures
        r@ == command_line(tap_args(x, y)),
{
    let args = vec![
        String::from_str("input"),
        String::from_str("tap"),
        decimal_string(x),
        decimal_string(y),
    ];
    assert(args.deep_view() =~= tap_args(x, y));
    join_args(&args)
}

/// The command line of a swipe from `(x1, y1)` to `(x2, y2)` lasting `duration` ms.
pub fn swipe_command(x1: u32, y1: u32, x2: u32, y2: u32, duration: u32) -> (r: String)
    ensures
        r@ == command_line(swipe_args(x1, y1, x2, y2, duration)),
{
    let args = vec![
        String::from_str("input"),
        String::from_str("swipe"),
        decimal_string(x1),
        decimal_string(y1),
        decimal_string(x2),
        decimal_string(y2),
        decimal_string(duration),
    ];
    assert(args.deep_view() =~= swipe_args(x1, y1, x2, y2, duration));
    join_args(&args)
}

/// The command line of a press held at `(x, y)` for `duration` ms.
pub fn long_tap_command(x: u32, y: u32, duration: u32) -> (r: String)
    ensures
        r@ == command_line(long_tap_args(x, y, duration)),
{
    let args = vec![
        String::from_str("input"),
        String::from_str("swipe"),
        decimal_string(x),
        decimal_string(y),
        decimal_string(x),
        decimal_string(y),
        decimal_string(duration),
    ];
    assert(args.deep_view() =~= long_tap_args(x, y, duration));
    join_args(&args)
}

/// The command line that types `text`.
pub fn text_command(text: &str) -> (r: String)
    ensures
        r@ == command_line(text_args(text@)),
{
    let args = vec![String::from_str("input"), String::from_str("text"), escape_text(text)];
    assert(args.deep_view() =~= text_args(text@));
    join_args(&args)
}

/// The command line that sends the key event `code`, held when `longpress` is set.
pub fn keyevent_command(code: &str, longpress: bool) -> (r: String)
    ensures
        r@ == command_line(keyevent_args(code@, longpress)),
{
    let mut args = vec![
        String::from_str("input"),
        String::from_str("keyevent"),
        String::from_str(code),
    ];
    if longpress {
        args.push(String::from_str("--longpress"));
    }
    assert(args.deep_view() =~= keyevent_args(code@, longpress));
    join_args(&args)
}

/// The command line of a trackball roll by `(x, y)`.
pub fn roll_command(x: u32, y: u32) -> (r: String)
    ensures
        r@ == command_line(roll_args(x, y)),
{
    let args = vec![
        String::from_str("input"),
        String::from_str("roll"),
        decimal_string(x),
        decimal_string(y),
    ];
    assert(args.deep_view() =~= roll_args(x, y));
    join_args(&args)
}

/// The command line that asks for the screen size.
pub fn size_command() -> (r: String)
    ensures
        r@ == command_line(size_args()),
{
    let args = vec![String::from_str("wm"), String::from_str("size")];
    assert(args.deep_view() =~= size_args());
    join_args(&args)
}

/// The command line that asks for the usage of `input`.
pub fn help_command() -> (r: String)
    ensures
        r@ == command_line(help_args()),
{
    let args = vec![String::from_str("input"), String::from_str("--help")];
    assert(args.deep_view() =~= help_args());
    join_args(&args)
}

/// A long tap is a swipe whose start and end are the same point: both are
/// `input swipe` commands, and the long tap's end coordinates repeat its start.
pub proof fn long_tap_is_swipe_in_place(x: u32, y: u32, duration: u32)
    ensures
        long_tap_args(x, y, duration) == swipe_args(x, y, x, y, duration),
        long_tap_args(x, y, duration)[0] == "input"@,
        long_tap_args(x, y, duration)[1] == "swipe"@,
        long_tap_args(x, y, duration)[2] == long_tap_args(x, y, duration)[4],
        long_tap_args(x, y, duration)[3] == long_tap_args(x, y, duration)[5],
{
    assert(long_tap_args(x, y, duration) =~= swipe_args(x, y, x, y, duration));
}

} // verus!
