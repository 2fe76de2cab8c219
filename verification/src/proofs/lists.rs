//! Facts about lists: taking a value out of a sequence, and rebinding a
//! prefix in a list of bindings.

use vstd::prelude::*;
use crate::graph::{bind, binding_index, local_uri, without};

verus! {

/// What `without` keeps and what it drops.
pub proof fn lemma_without<A>(s: Seq<A>, x: A)
    ensures
        !without(s, x).contains(x),
        forall|y: A| y != x && s.contains(y) ==> #[trigger] without(s, x).contains(y),
        forall|i: int|
            0 <= i < without(s, x).len() ==> s.contains(#[trigger] without(s, x)[i]) && without(
                s,
                x,
            )[i] != x,
        s.no_duplicates() ==> without(s, x).no_duplicates(),
        without(s, x).len() <= s.len(),
        !s.contains(x) ==> without(s, x) == s,
    decreases s.len(),
{
    reveal(Seq::filter);
    if s.len() > 0 {
        lemma_without(s.drop_last(), x);
    }
}

/// `without` on a list that grew by one entry.
pub proof fn lemma_without_push<A>(s: Seq<A>, y: A, x: A)
    ensures
        without(s.push(y), x) == if y != x {
            without(s, x).push(y)
        } else {
            without(s, x)
        },
{
    reveal(Seq::filter);
    assert(s.push(y).drop_last() =~= s);
}

/// What `bind` does to a list of bindings with distinct prefixes.
pub proof fn lemma_bind(prefixes: Seq<(Seq<char>, Seq<char>)>, prefix: Seq<char>, uri: Seq<char>)
    requires
        forall|i: int, j: int|
            0 <= i < prefixes.len() && 0 <= j < prefixes.len() && (#[trigger] prefixes[i]).0 == (
            #[trigger] prefixes[j]).0 ==> i == j,
    ensures
        forall|i: int, j: int|
            0 <= i < bind(prefixes, prefix, uri).len() && 0 <= j < bind(prefixes, prefix, uri).len()
                && (#[trigger] bind(prefixes, prefix, uri)[i]).0 == (#[trigger] bind(
                prefixes,
                prefix,
                uri,
            )[j]).0 ==> i == j,
        local_uri(bind(prefixes, prefix, uri), prefix) == Some(uri),
        forall|other: Seq<char>|
            other != prefix ==> #[trigger] local_uri(bind(prefixes, prefix, uri), other) ==
                local_uri(
                prefixes,
                other,
            ),
{
    let bound = bind(prefixes, prefix, uri);
    let at = match binding_index(prefixes, prefix) {
        Some(i) => i,
        None => prefixes.len() as int,
    };
    assert(bound[at] == (prefix, uri));
    assert forall|other: Seq<char>| other != prefix implies #[trigger] local_uri(bound, other) ==
        local_uri(
        prefixes,
        other,
    ) by {
        match binding_index(prefixes, other) {
            Some(i) => {
                assert(bound[i] == prefixes[i]);
            },
            None => {},
        }
    }
}

/// In a list without duplicates, taking a value out removes its one entry.
pub proof fn lemma_without_is_remove<A>(s: Seq<A>, i: int)
    requires
        s.no_duplicates(),
        0 <= i < s.len(),
    ensures
        without(s, s[i]) == s.remove(i),
    decreases s.len(),
{
    let init = s.drop_last();
    let x = s[i];
    assert(s =~= init.push(s.last()));
    lemma_without_push(init, s.last(), x);
    if i == s.len() - 1 {
        lemma_without(init, x);
    } else {
        lemma_without_is_remove(init, i);
    }
}

} // verus!
