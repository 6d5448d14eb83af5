//! The master list of symbols: how a symbol is written, which symbols are
//! taken, and how the list is asked for.

use vstd::prelude::*;
use crate::number::{decimal, push_decimal};
use crate::table::{csv_table, read_table, Table};
use crate::text::{
    alphanumeric,
    chars_of,
    is_alphanumeric,
    string_of,
    texts,
    trim,
    trimmed,
    uppercase,
    uppercased,
};

verus! {

/// A symbol as it is kept: without surrounding white space, in upper case.
pub open spec fn normalized(raw: Seq<char>) -> Seq<char> {
    uppercased(trimmed(raw))
}

/// Whether `c` may stand in a symbol: a letter, a number or an underscore.
pub open spec fn is_symbol_char(c: char) -> bool {
    alphanumeric(c) || c == '_'
}

/// Whether `symbol` is well formed: not empty, and made of letters, numbers
/// and underscores only.
pub open spec fn is_valid_symbol(symbol: Seq<char>) -> bool {
    symbol.len() > 0 && forall|i: int| 0 <= i < symbol.len() ==> is_symbol_char(#[trigger] symbol[i])
}

/// The symbols of `raw` that are taken, as they are kept, in order.
pub open spec fn accepted_symbols(raw: Seq<Seq<char>>) -> Seq<Seq<char>>
    decreases raw.len(),
{
    if raw.len() == 0 {
        Seq::empty()
    } else if is_valid_symbol(normalized(raw.last())) {
        accepted_symbols(raw.drop_last()).push(normalized(raw.last()))
    } else {
        accepted_symbols(raw.drop_last())
    }
}

/// The symbols of `raw` that are refused, as they would be kept, in order.
pub open spec fn rejected_symbols(raw: Seq<Seq<char>>) -> Seq<Seq<char>>
    decreases raw.len(),
{
    if raw.len() == 0 {
        Seq::empty()
    } else if is_valid_symbol(normalized(raw.last())) {
        rejected_symbols(raw.drop_last())
    } else {
        rejected_symbols(raw.drop_last()).push(normalized(raw.last()))
    }
}

/// Every symbol is either taken or refused.
pub proof fn lemma_screening_partitions(raw: Seq<Seq<char>>)
    ensures
        accepted_symbols(raw).len() + rejected_symbols(raw).len() == raw.len(),
        forall|i: int|
            0 <= i < accepted_symbols(raw).len() ==> is_valid_symbol(
                #[trigger] accepted_symbols(raw)[i],
            ),
        forall|i: int|
            0 <= i < rejected_symbols(raw).len() ==> !is_valid_symbol(
                #[trigger] rejected_symbols(raw)[i],
            ),
    decreases raw.len(),
{
    if raw.len() > 0 {
        lemma_screening_partitions(raw.drop_last());
    }
}

/// Writes a symbol as it is kept.
pub fn normalize_symbol(raw: &str) -> (symbol: String)
    ensures
        symbol@ == normalized(raw@),
{
    let body = trim(raw);
    uppercase(body.as_str())
}

/// Tells whether `symbol` is well formed.
pub fn symbol_is_valid(symbol: &str) -> (valid: bool)
    ensures
        valid == is_valid_symbol(symbol@),
{
    let chars = chars_of(symbol);
    if chars.len() == 0 {
        return false;
    }
    let mut i: usize = 0;
    while i < chars.len()
        invariant
            0 <= i <= chars.len(),
            chars@ == symbol@,
            forall|j: int| 0 <= j < i ==> is_symbol_char(#[trigger] chars@[j]),
        decreases chars.len() - i,
    {
        let c = chars[i];
        if !(is_alphanumeric(c) || c == '_') {
            return false;
        }
        i = i + 1;
    }
    true
}

/// Screens symbols before they are saved: each is written as it is kept, and
/// goes to the first list where it is well formed and to the second where it
/// is not. Both lists keep the order of `raw`.
pub fn screen_symbols(raw: &Vec<String>) -> (r: (Vec<String>, Vec<String>))
    ensures
        texts(r.0@) == accepted_symbols(texts(raw@)),
        texts(r.1@) == rejected_symbols(texts(raw@)),
{
    let mut accepted: Vec<String> = Vec::new();
    let mut rejected: Vec<String> = Vec::new();
    let ghost all = texts(raw@);
    let mut i: usize = 0;
    proof {
        assert(all.subrange(0, 0) =~= Seq::<Seq<char>>::empty());
        assert(texts(accepted@) =~= Seq::<Seq<char>>::empty());
        assert(texts(rejected@) =~= Seq::<Seq<char>>::empty());
    }
    while i < raw.len()
        invariant
            0 <= i <= raw.len(),
            all == texts(raw@),
            texts(accepted@) == accepted_symbols(all.subrange(0, i as int)),
            texts(rejected@) == rejected_symbols(all.subrange(0, i as int)),
        decreases raw.len() - i,
    {
        let ghost taken = texts(accepted@);
        let ghost refused = texts(rejected@);
        proof {
            let upto = all.subrange(0, i + 1);
            assert(upto.drop_last() =~= all.subrange(0, i as int));
            assert(upto.last() == raw@[i as int]@);
        }
        let symbol = normalize_symbol(raw[i].as_str());
        if symbol_is_valid(symbol.as_str()) {
            accepted.push(symbol);
            proof {
                assert(texts(accepted@) =~= taken.push(symbol@));
            }
        } else {
            rejected.push(symbol);
            proof {
                assert(texts(rejected@) =~= refused.push(symbol@));
            }
        }
        i = i + 1;
    }
    proof {
        assert(all.subrange(0, i as int) =~= all);
    }
    (accepted, rejected)
}

/// The query that lists the symbols in alphabetical order: all of them, or
/// at most `limit`, and then from the position `offset` on. An offset without
/// a limit is not applied.
pub open spec fn symbols_query_text(limit: Option<nat>, offset: Option<nat>) -> Seq<char> {
    let all = "SELECT symbol FROM nse_symbols ORDER BY symbol"@;
    match limit {
        None => all,
        Some(l) => match offset {
            None => all + " LIMIT "@ + decimal(l),
            Some(o) => all + " LIMIT "@ + decimal(l) + " OFFSET "@ + decimal(o),
        },
    }
}

/// An optional count as a mathematical integer.
pub open spec fn count_view(n: Option<u64>) -> Option<nat> {
    match n {
        Some(v) => Some(v as nat),
        None => None,
    }
}

/// Appends the decimal text of `n` to `query`.
fn append_count(query: &mut String, n: u64)
    ensures
        final(query)@ == old(query)@ + decimal(n as nat),
{
    let mut digits: Vec<char> = Vec::new();
    push_decimal(&mut digits, n);
    proof {
        assert(Seq::<char>::empty() + decimal(n as nat) =~= decimal(n as nat));
    }
    let text = string_of(&digits);
    query.append(text.as_str());
}

/// Writes the query that lists the symbols.
pub fn symbols_query(limit: Option<u64>, offset: Option<u64>) -> (query: String)
    ensures
        query@ == symbols_query_text(count_view(limit), count_view(offset)),
{
    let mut query = String::from_str("SELECT symbol FROM nse_symbols ORDER BY symbol");
    match limit {
        None => {},
        Some(l) => {
            query.append(" LIMIT ");
            append_count(&mut query, l);
            match offset {
                None => {},
                Some(o) => {
                    query.append(" OFFSET ");
                    append_count(&mut query, o);
                },
            }
        },
    }
    query
}

/// The pattern that matches every text in which `query`, in upper case,
/// occurs.
pub open spec fn search_pattern_text(query: Seq<char>) -> Seq<char> {
    "%"@ + uppercased(query) + "%"@
}

/// Writes the pattern with which symbols and names are searched.
pub fn search_pattern(query: &str) -> (pattern: String)
    ensures
        pattern@ == search_pattern_text(query@),
{
    let mut pattern = String::from_str("%");
    pattern.append(uppercase(query).as_str());
    pattern.append("%");
    pattern
}

/// The field of `record` at `at`, without surrounding white space, if the
/// record has one there.
pub open spec fn listed_field(record: Seq<Seq<char>>, at: int) -> Option<Seq<char>> {
    if 0 <= at < record.len() {
        Some(trimmed(record[at]))
    } else {
        None
    }
}

/// Whether a record of the master list names a symbol: it has two fields,
/// and neither is empty once surrounding white space is removed.
pub open spec fn lists_symbol(record: Seq<Seq<char>>) -> bool {
    record.len() >= 2 && trimmed(record[0]).len() > 0 && trimmed(record[1]).len() > 0
}

/// The symbols with their names that `records` list, in order.
pub open spec fn listed_symbols(records: Seq<Seq<Seq<char>>>) -> Seq<(Seq<char>, Seq<char>)>
    decreases records.len(),
{
    if records.len() == 0 {
        Seq::empty()
    } else if lists_symbol(records.last()) {
        listed_symbols(records.drop_last()).push(
            (trimmed(records.last()[0]), trimmed(records.last()[1])),
        )
    } else {
        listed_symbols(records.drop_last())
    }
}

/// The contents of a list of symbols with their names.
pub open spec fn pairs_view(pairs: Seq<(String, String)>) -> Seq<(Seq<char>, Seq<char>)> {
    Seq::new(pairs.len(), |i: int| (pairs[i].0@, pairs[i].1@))
}

/// The master list could not be read as tabular text.
#[derive(Debug, Clone, Copy, PartialEq, Eq, Structural)]
pub struct UnreadableListError {}

/// Collects the symbols with their names from the records of a master list.
pub fn collect_listed(table: &Table) -> (pairs: Vec<(String, String)>)
    ensures
        pairs_view(pairs@) == listed_symbols(table.records_view()),
{
    let mut pairs: Vec<(String, String)> = Vec::new();
    let ghost all = table.records_view();
    let mut i: usize = 0;
    proof {
        assert(all.subrange(0, 0) =~= Seq::<Seq<Seq<char>>>::empty());
        assert(pairs_view(pairs@) =~= Seq::<(Seq<char>, Seq<char>)>::empty());
    }
    while i < table.records.len()
        invariant
            0 <= i <= table.records.len(),
            all == table.records_view(),
            all.len() == table.records.len(),
            pairs_view(pairs@) == listed_symbols(all.subrange(0, i as int)),
        decreases table.records.len() - i,
    {
        let ghost before = pairs_view(pairs@);
        let record = &table.records[i];
        proof {
            let upto = all.subrange(0, i + 1);
            assert(upto.drop_last() =~= all.subrange(0, i as int));
            assert(upto.last() == texts(record@));
        }
        if record.len() >= 2 {
            let symbol = trim(record[0].as_str());
            let name = trim(record[1].as_str());
            proof {
                assert(texts(record@)[0] == record@[0]@);
                assert(texts(record@)[1] == record@[1]@);
            }
            if !symbol.as_str().is_empty() && !name.as_str().is_empty() {
                let ghost pair = (symbol@, name@);
                pairs.push((symbol, name));
                proof {
                    assert(pairs_view(pairs@) =~= before.push(pair));
                }
            }
        }
        i = i + 1;
    }
    proof {
        assert(all.subrange(0, i as int) =~= all);
    }
    pairs
}

/// What reading a master list yields: the symbols with their names, or the
/// refusal of a text whose records are not all of one length.
pub open spec fn equity_list_of(content: Seq<u8>) -> Result<
    Seq<(Seq<char>, Seq<char>)>,
    UnreadableListError,
> {
    match csv_table(content, false) {
        None => Err(UnreadableListError {  }),
        Some(table) => Ok(listed_symbols(table.1)),
    }
}

/// The content of a reading's outcome.
pub open spec fn equity_list_view(r: Result<Vec<(String, String)>, UnreadableListError>) -> Result<
    Seq<(Seq<char>, Seq<char>)>,
    UnreadableListError,
> {
    match r {
        Ok(pairs) => Ok(pairs_view(pairs@)),
        Err(e) => Err(e),
    }
}

/// Reads the master list: the first line is its header; of every other line
/// the first two fields are taken as symbol and name, and a line in which one
/// of them is empty is passed over.
pub fn parse_equity_list(content: &[u8]) -> (r: Result<Vec<(String, String)>, UnreadableListError>)
    ensures
        equity_list_view(r) == equity_list_of(content@),
{
    match read_table(content, false) {
        Err(_) => Err(UnreadableListError {  }),
        Ok(table) => Ok(collect_listed(&table)),
    }
}

/// The symbols with their names of `raw` that are taken, as they are kept:
/// the symbol normalized, the name without surrounding white space.
pub open spec fn accepted_named(raw: Seq<(Seq<char>, Seq<char>)>) -> Seq<(Seq<char>, Seq<char>)>
    decreases raw.len(),
{
    if raw.len() == 0 {
        Seq::empty()
    } else if is_valid_symbol(normalized(raw.last().0)) {
        accepted_named(raw.drop_last()).push((normalized(raw.last().0), trimmed(raw.last().1)))
    } else {
        accepted_named(raw.drop_last())
    }
}

/// The symbols of `raw` that are refused, as they would be kept, in order.
pub open spec fn rejected_named(raw: Seq<(Seq<char>, Seq<char>)>) -> Seq<Seq<char>>
    decreases raw.len(),
{
    if raw.len() == 0 {
        Seq::empty()
    } else if is_valid_symbol(normalized(raw.last().0)) {
        rejected_named(raw.drop_last())
    } else {
        rejected_named(raw.drop_last()).push(normalized(raw.last().0))
    }
}

/// Screens symbols with their names before they are saved: a symbol that is
/// well formed goes to the first list with its name, one that is not goes to
/// the second. Both lists keep the order of `raw`.
pub fn screen_named_symbols(raw: &Vec<(String, String)>) -> (r: (
    Vec<(String, String)>,
    Vec<String>,
))
    ensures
        pairs_view(r.0@) == accepted_named(pairs_view(raw@)),
        texts(r.1@) == rejected_named(pairs_view(raw@)),
{
    let mut accepted: Vec<(String, String)> = Vec::new();
    let mut rejected: Vec<String> = Vec::new();
    let ghost all = pairs_view(raw@);
    let mut i: usize = 0;
    proof {
        assert(all.subrange(0, 0) =~= Seq::<(Seq<char>, Seq<char>)>::empty());
        assert(pairs_view(accepted@) =~= Seq::<(Seq<char>, Seq<char>)>::empty());
        assert(texts(rejected@) =~= Seq::<Seq<char>>::empty());
    }
    while i < raw.len()
        invariant
            0 <= i <= raw.len(),
            all == pairs_view(raw@),
            pairs_view(accepted@) == accepted_named(all.subrange(0, i as int)),
            texts(rejected@) == rejected_named(all.subrange(0, i as int)),
        decreases raw.len() - i,
    {
        let ghost taken = pairs_view(accepted@);
        let ghost refused = texts(rejected@);
        proof {
            let upto = all.subrange(0, i + 1);
            assert(upto.drop_last() =~= all.subrange(0, i as int));
            assert(upto.last() == (raw@[i as int].0@, raw@[i as int].1@));
        }
        let symbol = normalize_symbol(raw[i].0.as_str());
        if symbol_is_valid(symbol.as_str()) {
            let name = trim(raw[i].1.as_str());
            let ghost pair = (symbol@, name@);
            accepted.push((symbol, name));
            proof {
                assert(pairs_view(accepted@) =~= taken.push(pair));
            }
        } else {
            rejected.push(symbol);
            proof {
                assert(texts(rejected@) =~= refused.push(symbol@));
            }
        }
        i = i + 1;
    }
    proof {
        assert(all.subrange(0, i as int) =~= all);
    }
    (accepted, rejected)
}

} // verus!
