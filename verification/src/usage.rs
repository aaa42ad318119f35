//! The processor counters that the operating system publishes as text.

use crate::search::{first_where, lemma_first_where_is};
use crate::text::{
    find_char, index_of, parse_usize, parsed_usize, part_texts, same_text, split_words, to_chars,
    to_text, words,
};
use vstd::prelude::*;

verus! {

/// The property of a word that is not a number of the machine's word size.
pub open spec fn unreadable() -> spec_fn(Seq<char>) -> bool {
    |w: Seq<char>| parsed_usize(w) is None
}

/// The counters of user, system and idle time that the first line of
/// `content` holds.
///
/// The line is split into words. A line of fewer than five words, or one
/// whose first word is not `cpu`, gives three zeros. Otherwise every word
/// after the first is to be a number: the first that is none is the error.
/// The counters are the first, the third and the fourth of these numbers.
pub open spec fn cpu_counters(content: Seq<char>) -> Result<(usize, usize, usize), Seq<char>> {
    let line = words(content.take(index_of(content, '\n')));
    let counters = line.skip(1);
    let bad = first_where(counters, unreadable());
    if line.len() < 5 || line[0] != "cpu"@ {
        Ok((0, 0, 0))
    } else if bad < counters.len() {
        Err(counters[bad])
    } else {
        Ok(
            (
                parsed_usize(counters[0])->0,
                parsed_usize(counters[2])->0,
                parsed_usize(counters[3])->0,
            ),
        )
    }
}

/// Reads the counters of user, system and idle time from the text of the
/// operating system's processor statistics. The error is the word that could
/// not be read as a number.
pub fn get_cpu_stats(content: &str) -> (r: Result<(usize, usize, usize), String>)
    ensures
        match r {
            Ok(counters) => cpu_counters(content@) == Ok::<(usize, usize, usize), Seq<char>>(
                counters,
            ),
            Err(word) => cpu_counters(content@) == Err::<(usize, usize, usize), Seq<char>>(word@),
        },
{
    let chars = to_chars(content);
    let end = find_char(chars.as_slice(), '\n');
    let line = &chars.as_slice()[0..end];
    assert(line@ =~= content@.take(end as int));
    let split = split_words(line);
    let cpu = to_chars("cpu");
    if split.len() < 5 {
        return Ok((0, 0, 0));
    }
    assert(part_texts(split@)[0] == split@[0]@);
    if !same_text(split[0], cpu.as_slice()) {
        return Ok((0, 0, 0));
    }
    let ghost counters = words(line@).skip(1);
    let mut stats: Vec<usize> = Vec::new();
    let mut i: usize = 1;
    while i < split.len()
        invariant
            1 <= i <= split.len(),
            split.len() >= 5,
            part_texts(split@) == words(line@),
            line@ == content@.take(index_of(content@, '\n')),
            words(line@)[0] == "cpu"@,
            counters == words(line@).skip(1),
            stats.len() == i - 1,
            forall|k: int| 0 <= k < i - 1 ==> parsed_usize(#[trigger] counters[k]) == Some(stats@[k]),
        decreases split.len() - i,
    {
        assert(counters[i - 1] == part_texts(split@)[i as int]);
        match parse_usize(split[i]) {
            Some(v) => stats.push(v),
            None => {
                proof {
                    lemma_first_where_is(counters, unreadable(), i - 1);
                }
                return Err(to_text(split[i]));
            },
        }
        i += 1;
    }
    proof {
        lemma_first_where_is(counters, unreadable(), counters.len() as int);
    }
    Ok((stats[0], stats[2], stats[3]))
}

} // verus!
