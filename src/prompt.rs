use vstd::prelude::*;

verus! {

/// What the interactive loop does with a line it read.
#[derive(Debug)]
pub enum PromptAction {
    /// The line was the `exit` command: stop.
    Exit,
    /// Run this source text: the line without its surrounding blanks.
    Run(Vec<char>),
}

pub open spec fn is_blank(c: char) -> bool {
    c == ' ' || c == '\t' || c == '\n' || c == '\r' || c == '\x0b' || c == '\x0c'
}

/// The line without leading blanks.
pub open spec fn trim_start(s: Seq<char>) -> Seq<char>
    decreases s.len(),
{
    if s.len() > 0 && is_blank(s[0]) {
        trim_start(s.drop_first())
    } else {
        s
    }
}

/// The line without trailing blanks.
pub open spec fn trim_end(s: Seq<char>) -> Seq<char>
    decreases s.len(),
{
    if s.len() > 0 && is_blank(s.last()) {
        trim_end(s.drop_last())
    } else {
        s
    }
}

pub open spec fn trimmed(s: Seq<char>) -> Seq<char> {
    trim_end(trim_start(s))
}

fn is_blank_char(c: char) -> (r: bool)
    ensures
        r == is_blank(c),
{
    c == ' ' || c == '\t' || c == '\n' || c == '\r' || c == '\x0b' || c == '\x0c'
}

/// One step of the interactive loop: the trimmed line `exit` stops it; any other line is run.
pub fn prompt_step(line: &Vec<char>) -> (r: PromptAction)
    ensures
        r is Exit <==> trimmed(line@) == seq!['e', 'x', 'i', 't'],
        r matches PromptAction::Run(t) ==> t@ == trimmed(line@),
{
    let n = line.len();
    let mut a: usize = 0;
    assert(line@.subrange(0, n as int) =~= line@);
    while a < n && is_blank_char(line[a])
        invariant
            n == line@.len(),
            a <= n,
            trim_start(line@) == trim_start(line@.subrange(a as int, n as int)),
        decreases n - a,
    {
        assert(line@.subrange(a + 1, n as int) =~= line@.subrange(a as int, n as int).drop_first());
        a = a + 1;
    }
    let mut b: usize = n;
    let ghost start = line@.subrange(a as int, n as int);
    assert(trim_start(line@) == start);
    while b > a && is_blank_char(line[b - 1])
        invariant
            n == line@.len(),
            a <= b <= n,
            start == line@.subrange(a as int, n as int),
            trim_end(start) == trim_end(line@.subrange(a as int, b as int)),
        decreases b - a,
    {
        assert(line@.subrange(a as int, b - 1) =~= line@.subrange(a as int, b as int).drop_last());
        b = b - 1;
    }
    let mut t: Vec<char> = Vec::new();
    let mut i: usize = a;
    while i < b
        invariant
            a <= i <= b <= n,
            n == line@.len(),
            t@ == line@.subrange(a as int, i as int),
        decreases b - i,
    {
        t.push(line[i]);
        i = i + 1;
        assert(t@ =~= line@.subrange(a as int, i as int));
    }
    assert(trim_end(t@) == t@);
    assert(trimmed(line@) == t@);
    let is_exit = t.len() == 4 && t[0] == 'e' && t[1] == 'x' && t[2] == 'i' && t[3] == 't';
    if is_exit {
        assert(t@ =~= seq!['e', 'x', 'i', 't']);
        PromptAction::Exit
    } else {
        PromptAction::Run(t)
    }
}

} // verus!
