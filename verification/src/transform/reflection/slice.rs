//! The leading observation lines that a buffered reflection covers.
//!
//! How many lines a buffered reflection takes is worked out from
//! floating-point ratios outside the library; the line structure it is cut
//! from is decided here.

use vstd::prelude::*;
use crate::text::{join, join_exec, lines, lines_exec, str_to_chars, chars_to_string};

verus! {

/// Number of lines in the observations, as `str::lines` counts them.
pub fn observation_line_count(full_observations: &str) -> (r: usize)
    ensures
        r == lines(full_observations@).len(),
{
    let cs = str_to_chars(full_observations);
    let ls = lines_exec(cs.as_slice());
    ls.len()
}

/// The first `max_lines` lines of the observations (all of them when there
/// are fewer).
pub open spec fn leading_lines(full: Seq<char>, max_lines: int) -> Seq<Seq<char>> {
    if max_lines < lines(full).len() {
        lines(full).take(max_lines)
    } else {
        lines(full)
    }
}

/// The leading lines joined by newlines, and how many lines were taken.
pub fn slice_leading_lines(full_observations: &str, max_lines: usize) -> (r: (String, usize))
    ensures
        r.0@ == join(leading_lines(full_observations@, max_lines as int), "\n"@),
        r.1 == leading_lines(full_observations@, max_lines as int).len(),
{
    let cs = str_to_chars(full_observations);
    let ls = lines_exec(cs.as_slice());
    let ghost all = ls@.map_values(|l: Vec<char>| l@);
    let n = if max_lines < ls.len() { max_lines } else { ls.len() };
    let mut taken: Vec<Vec<char>> = Vec::new();
    let mut i: usize = 0;
    while i < n
        invariant
            i <= n,
            n <= ls.len(),
            all == ls@.map_values(|l: Vec<char>| l@),
            taken@.map_values(|l: Vec<char>| l@) == all.take(i as int),
        decreases n - i,
    {
        let line = ls[i].clone();
        let ghost before = taken@.map_values(|l: Vec<char>| l@);
        taken.push(line);
        proof {
            assert(taken@.map_values(|l: Vec<char>| l@) =~= before.push(all[i as int]));
            assert(all.take(i + 1) =~= all.take(i as int).push(all[i as int]));
        }
        i += 1;
    }
    proof {
        if n == ls.len() {
            assert(all.take(n as int) =~= all);
        }
    }
    let sep: Vec<char> = vec!['\n'];
    proof {
        reveal_strlit("\n");
        assert(sep@ =~= "\n"@);
    }
    let joined = join_exec(&taken, sep.as_slice());
    (chars_to_string(joined.as_slice()), n)
}

} // verus!
