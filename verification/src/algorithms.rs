use vstd::prelude::*;

use crate::text::{chars_of, same_chars};

verus! {

/// The recommendation algorithms of the system.
#[derive(Clone, Copy, Debug, PartialEq, Eq, Structural)]
pub enum AlgorithmKind {
    Content,
    Knowledge,
    UserCf,
    ItemCf,
    Popularity,
    Matrix,
    Hybrid,
}

/// The algorithm an algorithm name selects; an unknown name selects the hybrid.
pub open spec fn kind_for_name(name: Seq<char>) -> AlgorithmKind {
    if name == "content"@ {
        AlgorithmKind::Content
    } else if name == "knowledge"@ {
        AlgorithmKind::Knowledge
    } else if name == "user-cf"@ {
        AlgorithmKind::UserCf
    } else if name == "item-cf"@ {
        AlgorithmKind::ItemCf
    } else if name == "popularity"@ {
        AlgorithmKind::Popularity
    } else if name == "matrix"@ {
        AlgorithmKind::Matrix
    } else {
        AlgorithmKind::Hybrid
    }
}

/// Each algorithm name selects its own algorithm: content, knowledge, user-cf,
/// item-cf, popularity and matrix name those algorithms, and every other name
/// (hybrid among them) selects the hybrid.
pub proof fn lemma_algorithm_names(name: Seq<char>)
    ensures
        kind_for_name("content"@) == AlgorithmKind::Content,
        kind_for_name("knowledge"@) == AlgorithmKind::Knowledge,
        kind_for_name("user-cf"@) == AlgorithmKind::UserCf,
        kind_for_name("item-cf"@) == AlgorithmKind::ItemCf,
        kind_for_name("popularity"@) == AlgorithmKind::Popularity,
        kind_for_name("matrix"@) == AlgorithmKind::Matrix,
        kind_for_name("hybrid"@) == AlgorithmKind::Hybrid,
        name != "content"@ && name != "knowledge"@ && name != "user-cf"@ && name != "item-cf"@
            && name != "popularity"@ && name != "matrix"@ ==> kind_for_name(name)
            == AlgorithmKind::Hybrid,
{
    reveal_strlit("content");
    reveal_strlit("knowledge");
    reveal_strlit("user-cf");
    reveal_strlit("item-cf");
    reveal_strlit("popularity");
    reveal_strlit("matrix");
    reveal_strlit("hybrid");
    assert("content"@[0] == 'c' && "knowledge"@[0] == 'k' && "user-cf"@[0] == 'u');
    assert("item-cf"@[0] == 'i' && "popularity"@[0] == 'p' && "matrix"@[0] == 'm');
    assert("hybrid"@[0] == 'h');
}

fn is_name(given: &Vec<char>, name: &str) -> (same: bool)
    ensures
        same == (given@ == name@),
{
    let n = chars_of(name);
    same_chars(given, &n)
}

/// Selects the algorithm for a name: content, knowledge, user-cf, item-cf,
/// popularity, matrix; any other name (hybrid among them) gives the hybrid.
pub fn algorithm_kind(name: &str) -> (kind: AlgorithmKind)
    ensures
        kind == kind_for_name(name@),
{
    let given = chars_of(name);
    if is_name(&given, "content") {
        AlgorithmKind::Content
    } else if is_name(&given, "knowledge") {
        AlgorithmKind::Knowledge
    } else if is_name(&given, "user-cf") {
        AlgorithmKind::UserCf
    } else if is_name(&given, "item-cf") {
        AlgorithmKind::ItemCf
    } else if is_name(&given, "popularity") {
        AlgorithmKind::Popularity
    } else if is_name(&given, "matrix") {
        AlgorithmKind::Matrix
    } else {
        AlgorithmKind::Hybrid
    }
}

} // verus!
