//! The names of the files that carry data from one phase to the next.
//!
//! A map job leaves one file per partition, `map.<job>.reduce.<partition>`, and
//! a reduce job leaves `reduce.<partition>.result`. The names are all that the
//! master has to find out which partitions exist, so a name counts as one of
//! the two kinds only if every part of it is in place.

use crate::decimal::{
    decimal, from_decimal, lemma_decimal_chars, lemma_decimal_is_injective,
    lemma_parse_decimal_of_decimal, parse_decimal, to_decimal,
};
use vstd::prelude::*;
use vstd::string::StringExecFns;

verus! {

/// The character between the parts of a name.
pub open spec fn separator() -> char {
    '.'
}

/// The first part of an intermediate file's name.
pub open spec fn map_word() -> Seq<char> {
    seq!['m', 'a', 'p']
}

/// The first part of a result file's name, and the third of an intermediate
/// file's.
pub open spec fn reduce_word() -> Seq<char> {
    seq!['r', 'e', 'd', 'u', 'c', 'e']
}

/// The last part of a result file's name.
pub open spec fn result_word() -> Seq<char> {
    seq!['r', 'e', 's', 'u', 'l', 't']
}

/// The name of the file that map job `job_id` leaves for `partition_id`.
pub open spec fn intermediate_name(job_id: int, partition_id: int) -> Seq<char> {
    map_word() + seq![separator()] + decimal(job_id) + seq![separator()] + reduce_word() + seq![
        separator(),
    ] + decimal(partition_id)
}

/// The name of the file that holds the result of `partition_id`.
pub open spec fn result_name(partition_id: int) -> Seq<char> {
    reduce_word() + seq![separator()] + decimal(partition_id) + seq![separator()] + result_word()
}

/// The parts of `name` that the separators cut it into, in order. A name
/// without a separator is one part, and so is the empty name; two separators
/// in a row hold an empty part between them.
pub open spec fn fields(name: Seq<char>) -> Seq<Seq<char>>
    decreases name.len(),
{
    if name.len() == 0 {
        seq![Seq::<char>::empty()]
    } else {
        let before = fields(name.drop_last());
        if name.last() == separator() {
            before.push(Seq::<char>::empty())
        } else {
            before.update(before.len() - 1, before.last().push(name.last()))
        }
    }
}

/// The job and the partition that an intermediate file's name carries, if
/// `name` is such a name: four parts, of which the first is `map`, the third
/// `reduce`, and the second and fourth each write an integer.
pub open spec fn intermediate_ids(name: Seq<char>) -> Option<(int, int)> {
    let parts = fields(name);
    if parts.len() == 4 && parts[0] == map_word() && parts[2] == reduce_word() && parse_decimal(
        parts[1],
    ) is Some && parse_decimal(parts[3]) is Some {
        Some((parse_decimal(parts[1])->0, parse_decimal(parts[3])->0))
    } else {
        None
    }
}

/// The partition that a result file's name carries, if `name` is such a name:
/// three parts, of which the first is `reduce`, the last `result`, and the one
/// between them writes an integer.
pub open spec fn result_id(name: Seq<char>) -> Option<int> {
    let parts = fields(name);
    if parts.len() == 3 && parts[0] == reduce_word() && parts[2] == result_word() {
        parse_decimal(parts[1])
    } else {
        None
    }
}

/// Whether `s` holds no separator.
pub open spec fn is_plain(s: Seq<char>) -> bool {
    forall|i: int| 0 <= i < s.len() ==> #[trigger] s[i] != separator()
}

/// Text without a separator is a single part.
pub proof fn lemma_fields_of_plain(s: Seq<char>)
    requires
        is_plain(s),
    ensures
        fields(s) == seq![s],
    decreases s.len(),
{
    if s.len() == 0 {
        assert(s =~= Seq::<char>::empty());
    } else {
        lemma_fields_of_plain(s.drop_last());
        assert(s.last() == s[s.len() - 1]);
        assert(s.drop_last().push(s.last()) =~= s);
        assert(fields(s) =~= seq![s]);
    }
}

/// A separator followed by text without one adds that text as one more part.
pub proof fn lemma_fields_of_joined(head: Seq<char>, tail: Seq<char>)
    requires
        is_plain(tail),
    ensures
        fields(head + seq![separator()] + tail) == fields(head).push(tail),
    decreases tail.len(),
{
    let whole = head + seq![separator()] + tail;
    if tail.len() == 0 {
        assert(whole.drop_last() =~= head);
        assert(tail =~= Seq::<char>::empty());
    } else {
        let shorter = tail.drop_last();
        lemma_fields_of_joined(head, shorter);
        assert(whole.drop_last() =~= head + seq![separator()] + shorter);
        assert(whole.last() == tail[tail.len() - 1]);
        assert(shorter.push(tail.last()) =~= tail);
        assert(fields(whole) =~= fields(head).push(tail));
    }
}

/// Canonical decimal text holds no separator.
pub proof fn lemma_decimal_is_plain(n: int)
    ensures
        is_plain(decimal(n)),
{
    lemma_decimal_chars(n);
}

/// The four parts of an intermediate file's name.
pub proof fn lemma_fields_of_intermediate_name(job_id: int, partition_id: int)
    ensures
        fields(intermediate_name(job_id, partition_id)) == seq![
            map_word(),
            decimal(job_id),
            reduce_word(),
            decimal(partition_id),
        ],
{
    let dot = seq![separator()];
    let one = map_word();
    let two = one + dot + decimal(job_id);
    let three = two + dot + reduce_word();
    lemma_decimal_is_plain(job_id);
    lemma_decimal_is_plain(partition_id);
    lemma_fields_of_plain(one);
    lemma_fields_of_joined(one, decimal(job_id));
    lemma_fields_of_joined(two, reduce_word());
    lemma_fields_of_joined(three, decimal(partition_id));
    assert(fields(intermediate_name(job_id, partition_id)) =~= seq![
        map_word(),
        decimal(job_id),
        reduce_word(),
        decimal(partition_id),
    ]);
}

/// The three parts of a result file's name.
pub proof fn lemma_fields_of_result_name(partition_id: int)
    ensures
        fields(result_name(partition_id)) == seq![
            reduce_word(),
            decimal(partition_id),
            result_word(),
        ],
{
    let dot = seq![separator()];
    let one = reduce_word();
    let two = one + dot + decimal(partition_id);
    lemma_decimal_is_plain(partition_id);
    lemma_fields_of_plain(one);
    lemma_fields_of_joined(one, decimal(partition_id));
    lemma_fields_of_joined(two, result_word());
    assert(fields(result_name(partition_id)) =~= seq![
        reduce_word(),
        decimal(partition_id),
        result_word(),
    ]);
}

/// The name that a map job gives a file is read back as that job and that
/// partition.
pub proof fn lemma_intermediate_name_is_read_back(job_id: int, partition_id: int)
    requires
        i32::MIN <= job_id <= i32::MAX,
        i32::MIN <= partition_id <= i32::MAX,
    ensures
        intermediate_ids(intermediate_name(job_id, partition_id)) == Some((job_id, partition_id)),
{
    lemma_fields_of_intermediate_name(job_id, partition_id);
    lemma_parse_decimal_of_decimal(job_id);
    lemma_parse_decimal_of_decimal(partition_id);
}

/// The name that a reduce job gives its result is read back as that partition.
pub proof fn lemma_result_name_is_read_back(partition_id: int)
    requires
        i32::MIN <= partition_id <= i32::MAX,
    ensures
        result_id(result_name(partition_id)) == Some(partition_id),
{
    lemma_fields_of_result_name(partition_id);
    lemma_parse_decimal_of_decimal(partition_id);
}

/// Two writers never meet on one file: intermediate files of different jobs or
/// partitions have different names, result files of different partitions have
/// different names, and no intermediate file has the name of a result file.
pub proof fn lemma_names_never_collide(job_a: int, partition_a: int, job_b: int, partition_b: int)
    ensures
        intermediate_name(job_a, partition_a) == intermediate_name(job_b, partition_b) ==> job_a
            == job_b && partition_a == partition_b,
        result_name(partition_a) == result_name(partition_b) ==> partition_a == partition_b,
        intermediate_name(job_a, partition_a) != result_name(partition_b),
{
    lemma_fields_of_intermediate_name(job_a, partition_a);
    lemma_fields_of_intermediate_name(job_b, partition_b);
    lemma_fields_of_result_name(partition_a);
    lemma_fields_of_result_name(partition_b);
    if intermediate_name(job_a, partition_a) == intermediate_name(job_b, partition_b) {
        let parts = fields(intermediate_name(job_a, partition_a));
        assert(parts[1] == decimal(job_a) && parts[1] == decimal(job_b));
        assert(parts[3] == decimal(partition_a) && parts[3] == decimal(partition_b));
        lemma_decimal_is_injective(job_a, job_b);
        lemma_decimal_is_injective(partition_a, partition_b);
    }
    if result_name(partition_a) == result_name(partition_b) {
        let parts = fields(result_name(partition_a));
        assert(parts[1] == decimal(partition_a) && parts[1] == decimal(partition_b));
        lemma_decimal_is_injective(partition_a, partition_b);
    }
}

/// No name is read as both an intermediate file and a result file.
pub proof fn lemma_kinds_are_disjoint(name: Seq<char>)
    ensures
        !(intermediate_ids(name) is Some && result_id(name) is Some),
{
}

/// The text of each part.
pub open spec fn texts(parts: Seq<Vec<char>>) -> Seq<Seq<char>> {
    Seq::new(parts.len(), |k: int| parts[k]@)
}

/// Writes the name of the file that map job `job_id` leaves for
/// `partition_id`.
pub fn intermediate_file_name(job_id: i32, partition_id: usize) -> (name: String)
    ensures
        name@ == intermediate_name(job_id as int, partition_id as int),
{
    proof {
        reveal_strlit("map.");
        reveal_strlit(".reduce.");
    }
    let mut name = String::from_str("map.");
    name.append(to_decimal(job_id as i128).as_str());
    name.append(".reduce.");
    name.append(to_decimal(partition_id as i128).as_str());
    assert(name@ =~= intermediate_name(job_id as int, partition_id as int));
    name
}

/// Writes the name of the file that holds the result of `partition_id`.
pub fn result_file_name(partition_id: i32) -> (name: String)
    ensures
        name@ == result_name(partition_id as int),
{
    proof {
        reveal_strlit("reduce.");
        reveal_strlit(".result");
    }
    let mut name = String::from_str("reduce.");
    name.append(to_decimal(partition_id as i128).as_str());
    name.append(".result");
    assert(name@ =~= result_name(partition_id as int));
    name
}

/// Cuts `name` at its separators.
pub fn split_fields(name: &str) -> (parts: Vec<Vec<char>>)
    ensures
        texts(parts@) == fields(name@),
{
    broadcast use vstd::string::group_string_axioms;

    let mut done: Vec<Vec<char>> = Vec::new();
    let mut current: Vec<char> = Vec::new();
    let ghost mut seen_len: int = 0;
    assert(name@.take(0) =~= Seq::<char>::empty());
    assert(texts(done@).push(current@) =~= seq![Seq::<char>::empty()]);
    let chars = name.chars();
    for c in it: chars
        invariant
            it.seq() == name@,
            seen_len == it.index(),
            fields(name@.take(seen_len)) == texts(done@).push(current@),
    {
        let ghost seen = name@.take(it.index());
        let ghost next = name@.take(it.index() + 1);
        assert(next.drop_last() =~= seen);
        assert(next.last() == c);
        if c == '.' {
            let ghost parts_before = texts(done@);
            let ghost text = current@;
            done.push(current);
            current = Vec::new();
            assert(texts(done@) =~= parts_before.push(text));
        } else {
            current.push(c);
        }
        assert(fields(next) =~= texts(done@).push(current@));
        proof {
            seen_len = seen_len + 1;
        }
    }
    assert(name@.take(seen_len) =~= name@);
    let ghost parts_before = texts(done@);
    let ghost text = current@;
    done.push(current);
    assert(texts(done@) =~= parts_before.push(text));
    done
}

/// Whether `part` is the text `word`.
fn is_word(part: &Vec<char>, word: &Vec<char>) -> (same: bool)
    ensures
        same == (part@ == word@),
{
    if part.len() != word.len() {
        return false;
    }
    let mut i: usize = 0;
    while i < part.len()
        invariant
            i <= part.len(),
            part.len() == word.len(),
            part@.take(i as int) == word@.take(i as int),
        decreases part.len() - i,
    {
        if part[i] != word[i] {
            return false;
        }
        assert(part@.take(i + 1) =~= part@.take(i as int).push(part@[i as int]));
        assert(word@.take(i + 1) =~= word@.take(i as int).push(word@[i as int]));
        i = i + 1;
    }
    assert(part@.take(i as int) =~= part@);
    assert(word@.take(i as int) =~= word@);
    true
}

/// Reads the job and the partition off the name of an intermediate file.
/// `None` for every other name.
pub fn read_intermediate_name(name: &str) -> (ids: Option<(i32, i32)>)
    ensures
        match ids {
            Some((job_id, partition_id)) => intermediate_ids(name@) == Some(
                (job_id as int, partition_id as int),
            ),
            None => intermediate_ids(name@) is None,
        },
{
    let parts = split_fields(name);
    assert(forall|k: int| 0 <= k < parts.len() ==> #[trigger] parts[k]@ == fields(name@)[k]) by {
        assert(texts(parts@).len() == parts.len());
        assert forall|k: int| 0 <= k < parts.len() implies #[trigger] parts[k]@ == fields(name@)[k] by {
            assert(texts(parts@)[k] == parts[k]@);
        }
    }
    if parts.len() != 4 {
        return None;
    }
    let map_part = vec!['m', 'a', 'p'];
    let reduce_part = vec!['r', 'e', 'd', 'u', 'c', 'e'];
    assert(map_part@ =~= map_word());
    assert(reduce_part@ =~= reduce_word());
    if !is_word(&parts[0], &map_part) || !is_word(&parts[2], &reduce_part) {
        return None;
    }
    match (from_decimal(&parts[1]), from_decimal(&parts[3])) {
        (Some(job_id), Some(partition_id)) => Some((job_id, partition_id)),
        _ => None,
    }
}

/// Reads the partition off the name of a result file. `None` for every other
/// name.
pub fn read_result_name(name: &str) -> (id: Option<i32>)
    ensures
        match id {
            Some(partition_id) => result_id(name@) == Some(partition_id as int),
            None => result_id(name@) is None,
        },
{
    let parts = split_fields(name);
    assert(forall|k: int| 0 <= k < parts.len() ==> #[trigger] parts[k]@ == fields(name@)[k]) by {
        assert(texts(parts@).len() == parts.len());
        assert forall|k: int| 0 <= k < parts.len() implies #[trigger] parts[k]@ == fields(name@)[k] by {
            assert(texts(parts@)[k] == parts[k]@);
        }
    }
    if parts.len() != 3 {
        return None;
    }
    let reduce_part = vec!['r', 'e', 'd', 'u', 'c', 'e'];
    let result_part = vec!['r', 'e', 's', 'u', 'l', 't'];
    assert(reduce_part@ =~= reduce_word());
    assert(result_part@ =~= result_word());
    if !is_word(&parts[0], &reduce_part) || !is_word(&parts[2], &result_part) {
        return None;
    }
    from_decimal(&parts[1])
}

} // verus!
