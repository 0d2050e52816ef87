//! The command resolver: a pure, typo-tolerant matcher from the first token
//! of raw command text to a known command keyword.
//!
//! The resolver picks the vocabulary entry whose edit distance to the
//! candidate token is minimal and at most [`TOLERANCE`]; when several entries
//! are equally close, the one earliest in vocabulary declaration order wins.

use crate::text::chars_vec;
use vstd::prelude::*;

verus! {

/// Largest edit distance at which a token still resolves to a keyword.
pub const TOLERANCE: usize = 2;

/// The commands a playing character can issue.
#[derive(Clone, Copy, PartialEq, Eq, Structural, Debug)]
pub enum Command {
    Say,
    Tell,
    Talk,
    TailSwipe,
    Kick,
    Me,
    North,
    South,
    West,
    East,
    Up,
    Down,
    Score,
    Help,
    Quit,
}

/// The keyword under which each command is known on the wire.
pub open spec fn keyword(c: Command) -> Seq<char> {
    match c {
        Command::Say => "say"@,
        Command::Tell => "tell"@,
        Command::Talk => "talk"@,
        Command::TailSwipe => "tail swipe"@,
        Command::Kick => "kick"@,
        Command::Me => "me"@,
        Command::North => "n"@,
        Command::South => "s"@,
        Command::West => "w"@,
        Command::East => "e"@,
        Command::Up => "u"@,
        Command::Down => "d"@,
        Command::Score => "score"@,
        Command::Help => "help"@,
        Command::Quit => "quit"@,
    }
}

/// Runtime counterpart of [`keyword`].
pub fn keyword_str(c: Command) -> (s: &'static str)
    ensures
        s@ == keyword(c),
{
    match c {
        Command::Say => "say",
        Command::Tell => "tell",
        Command::Talk => "talk",
        Command::TailSwipe => "tail swipe",
        Command::Kick => "kick",
        Command::Me => "me",
        Command::North => "n",
        Command::South => "s",
        Command::West => "w",
        Command::East => "e",
        Command::Up => "u",
        Command::Down => "d",
        Command::Score => "score",
        Command::Help => "help",
        Command::Quit => "quit",
    }
}

/// The vocabulary, in declaration order; earlier entries win distance ties.
pub open spec fn vocabulary() -> Seq<Command> {
    seq![
        Command::Say,
        Command::Tell,
        Command::Talk,
        Command::TailSwipe,
        Command::Kick,
        Command::Me,
        Command::North,
        Command::South,
        Command::West,
        Command::East,
        Command::Up,
        Command::Down,
        Command::Score,
        Command::Help,
        Command::Quit,
    ]
}

pub open spec fn min_nat(x: nat, y: nat) -> nat {
    if x <= y {
        x
    } else {
        y
    }
}

/// Levenshtein edit distance: the least number of single-character
/// insertions, deletions and substitutions turning `a` into `b`.
pub open spec fn edit_distance(a: Seq<char>, b: Seq<char>) -> nat
    decreases a.len() + b.len(),
{
    if a.len() == 0 {
        b.len()
    } else if b.len() == 0 {
        a.len()
    } else if a[0] == b[0] {
        edit_distance(a.drop_first(), b.drop_first())
    } else {
        1 + min_nat(
            edit_distance(a.drop_first(), b),
            min_nat(edit_distance(a, b.drop_first()), edit_distance(a.drop_first(), b.drop_first())),
        )
    }
}

/// Bounded distance search over the suffixes `a[i..]` and `b[j..]`: reports
/// the exact distance when it is at most `k`, and only that it exceeds `k`
/// otherwise.  The budget keeps the search linear for small `k`.
fn distance_within_from(a: &Vec<char>, i: usize, b: &Vec<char>, j: usize, k: usize) -> (r: Option<
    usize,
>)
    requires
        i <= a.len(),
        j <= b.len(),
    ensures
        match r {
            Option::Some(d) => d <= k && d == edit_distance(
                a@.skip(i as int),
                b@.skip(j as int),
            ),
            Option::None => edit_distance(a@.skip(i as int), b@.skip(j as int)) > k,
        },
    decreases a.len() - i + b.len() - j,
{
    let ghost sa = a@.skip(i as int);
    let ghost sb = b@.skip(j as int);
    if i == a.len() {
        proof {
            assert(sa =~= Seq::<char>::empty());
        }
        let d = b.len() - j;
        if d <= k {
            Some(d)
        } else {
            None
        }
    } else if j == b.len() {
        proof {
            assert(sb =~= Seq::<char>::empty());
        }
        let d = a.len() - i;
        if d <= k {
            Some(d)
        } else {
            None
        }
    } else if a[i] == b[j] {
        proof {
            assert(sa[0] == a@[i as int]);
            assert(sb[0] == b@[j as int]);
            assert(sa.drop_first() =~= a@.skip(i as int + 1));
            assert(sb.drop_first() =~= b@.skip(j as int + 1));
        }
        distance_within_from(a, i + 1, b, j + 1, k)
    } else {
        proof {
            assert(sa[0] == a@[i as int]);
            assert(sb[0] == b@[j as int]);
            assert(sa.drop_first() =~= a@.skip(i as int + 1));
            assert(sb.drop_first() =~= b@.skip(j as int + 1));
        }
        if k == 0 {
            None
        } else {
            let r1 = distance_within_from(a, i + 1, b, j, k - 1);
            let r2 = distance_within_from(a, i, b, j + 1, k - 1);
            let r3 = distance_within_from(a, i + 1, b, j + 1, k - 1);
            let mut m: Option<usize> = None;
            if let Some(d1) = r1 {
                m = Some(d1);
            }
            if let Some(d2) = r2 {
                m = match m {
                    Some(cur) => if d2 < cur {
                        Some(d2)
                    } else {
                        Some(cur)
                    },
                    None => Some(d2),
                };
            }
            if let Some(d3) = r3 {
                m = match m {
                    Some(cur) => if d3 < cur {
                        Some(d3)
                    } else {
                        Some(cur)
                    },
                    None => Some(d3),
                };
            }
            match m {
                Some(d) => Some(d + 1),
                None => None,
            }
        }
    }
}

/// Edit distance between `a` and `b` when it is at most `k`; `None` when the
/// distance exceeds `k`.
pub fn distance_within(a: &str, b: &str, k: usize) -> (r: Option<usize>)
    ensures
        match r {
            Option::Some(d) => d <= k && d == edit_distance(a@, b@),
            Option::None => edit_distance(a@, b@) > k,
        },
{
    let av = chars_vec(a);
    let bv = chars_vec(b);
    proof {
        assert(av@.skip(0) =~= a@);
        assert(bv@.skip(0) =~= b@);
    }
    distance_within_from(&av, 0, &bv, 0, k)
}

/// Folds the vocabulary left to right, keeping the earliest entry of least
/// distance among those within [`TOLERANCE`].
pub open spec fn resolve_scan(v: Seq<Command>, tok: Seq<char>) -> Option<(Command, nat)>
    decreases v.len(),
{
    if v.len() == 0 {
        Option::None
    } else {
        let prev = resolve_scan(v.drop_last(), tok);
        let d = edit_distance(keyword(v.last()), tok);
        match prev {
            Option::None => if d <= TOLERANCE {
                Option::Some((v.last(), d))
            } else {
                Option::None
            },
            Option::Some(best) => if d <= TOLERANCE && d < best.1 {
                Option::Some((v.last(), d))
            } else {
                prev
            },
        }
    }
}

/// What the resolver returns on a candidate token: the closest keyword
/// within tolerance, earliest declared on ties, or no match.
pub open spec fn spec_resolve(tok: Seq<char>) -> Option<Command> {
    match resolve_scan(vocabulary(), tok) {
        Option::None => Option::None,
        Option::Some(best) => Option::Some(best.0),
    }
}

/// Resolves a candidate token to the closest known command keyword.
pub fn resolve(token: &str) -> (r: Option<Command>)
    ensures
        r == spec_resolve(token@),
{
    let tok = chars_vec(token);
    let mut best: Option<(Command, usize)> = None;
    let mut i: usize = 0;
    while i < 15
        invariant
            tok@ == token@,
            i <= 15,
            match (best, resolve_scan(vocabulary().take(i as int), token@)) {
                (Option::None, Option::None) => true,
                (Option::Some(eb), Option::Some(sb)) => eb.0 == sb.0 && eb.1 == sb.1,
                _ => false,
            },
        decreases 15 - i,
    {
        let (cmd, kw): (Command, &'static str) = match i {
            0 => (Command::Say, "say"),
            1 => (Command::Tell, "tell"),
            2 => (Command::Talk, "talk"),
            3 => (Command::TailSwipe, "tail swipe"),
            4 => (Command::Kick, "kick"),
            5 => (Command::Me, "me"),
            6 => (Command::North, "n"),
            7 => (Command::South, "s"),
            8 => (Command::West, "w"),
            9 => (Command::East, "e"),
            10 => (Command::Up, "u"),
            11 => (Command::Down, "d"),
            12 => (Command::Score, "score"),
            13 => (Command::Help, "help"),
            _ => (Command::Quit, "quit"),
        };
        proof {
            assert(vocabulary()[i as int] == cmd);
            assert(kw@ == keyword(cmd));
        }
        let d_opt = distance_within(kw, token, TOLERANCE);
        proof {
            assert(vocabulary().take(i as int + 1).drop_last() =~= vocabulary().take(i as int));
            assert(vocabulary().take(i as int + 1).last() == cmd);
        }
        match d_opt {
            Some(d) => {
                best = match best {
                    None => Some((cmd, d)),
                    Some(cur) => if d < cur.1 {
                        Some((cmd, d))
                    } else {
                        Some(cur)
                    },
                };
            },
            None => {},
        }
        i = i + 1;
    }
    proof {
        assert(vocabulary().take(15) =~= vocabulary());
    }
    match best {
        None => None,
        Some(win) => Some(win.0),
    }
}

} // verus!
