//! Paths.

use vstd::prelude::*;
use vstd::string::StrSliceExecFns;

use crate::error::{ErrorView, NfsError, Result};
use crate::net::fields;
use crate::spelling::put_together;
use crate::text::{characters, concat2};

verus! {

/// The parts of a path that are not empty.
pub open spec fn parts(path: Seq<char>) -> Seq<Seq<char>> {
    non_empty(fields(path, '/'))
}

/// The texts that are not empty.
pub open spec fn non_empty(texts: Seq<Seq<char>>) -> Seq<Seq<char>>
    decreases texts.len(),
{
    if texts.len() == 0 {
        Seq::empty()
    } else if texts.last().len() == 0 {
        non_empty(texts.drop_last())
    } else {
        non_empty(texts.drop_last()).push(texts.last())
    }
}

/// Texts as specifications see them.
pub open spec fn text_views(texts: Seq<String>) -> Seq<Seq<char>> {
    texts.map_values(|text: String| text@)
}

/// The parts of a path that are not empty.
pub fn components(path: &str) -> (result: Vec<String>)
    ensures
        text_views(result@) == parts(path@),
{
    let chars = characters(path);
    let mut result: Vec<String> = Vec::new();
    let n: usize = chars.len();
    let mut from: usize = 0;
    let mut i: usize = 0;
    let ghost s = path@;
    assert(s.take(0) =~= Seq::empty());
    assert(s.subrange(0, 0) =~= Seq::empty());
    assert(fields(s.take(0), '/').drop_last() =~= Seq::empty());
    assert(text_views(result@) =~= Seq::empty());
    while i < n
        invariant
            from <= i <= n,
            n == chars@.len(),
            chars@ == path@,
            s == path@,
            fields(s.take(i as int), '/').len() >= 1,
            fields(s.take(i as int), '/').last() == s.subrange(from as int, i as int),
            text_views(result@) == non_empty(fields(s.take(i as int), '/').drop_last()),
        decreases n - i,
    {
        let ghost here = fields(s.take(i as int), '/');
        let ghost next = fields(s.take(i + 1), '/');
        assert(s.take(i + 1).drop_last() =~= s.take(i as int));
        assert(s.take(i + 1).last() == s[i as int]);
        if chars[i] == '/' {
            let ghost before = text_views(result@);
            assert(next.drop_last() =~= here);
            if from < i {
                let part = path.substring_char(from, i);
                result.push(part.to_owned());
                assert(text_views(result@) =~= before.push(part@));
            }
            from = i + 1;
            assert(s.subrange(from as int, i + 1) =~= Seq::empty());
        } else {
            assert(next.drop_last() =~= here.drop_last());
            assert(s.subrange(from as int, i + 1) =~= s.subrange(from as int, i as int).push(
                s[i as int],
            ));
        }
        i += 1;
    }
    assert(s.take(n as int) =~= s);
    if from < n {
        let ghost before = text_views(result@);
        let part = path.substring_char(from, n);
        result.push(part.to_owned());
        assert(text_views(result@) =~= before.push(part@));
    }
    result
}


/// The directory of a path, by its parts, and the name in it. The root has none.
pub fn split_path(path: &str) -> (result: Result<(Vec<String>, String)>)
    ensures
        if parts(path@).len() == 0 {
            &&& result is Err
            &&& result->Err_0@ == ErrorView::InvalidInput("path names no file: "@ + path@)
        } else {
            &&& result is Ok
            &&& text_views(result->Ok_0.0@) == parts(path@).drop_last()
            &&& result->Ok_0.1@ == parts(path@).last()
        },
{
    let mut all = components(path);
    let ghost before = text_views(all@);
    match all.pop() {
        Some(name) => {
            assert(text_views(all@) =~= before.drop_last());
            Ok((all, name))
        },
        None => Err(NfsError::InvalidInput(concat2("path names no file: ", path))),
    }
}

/// The parts of a path are the names that it was put together from, whatever slashes stand
/// before and behind them.
pub proof fn law_names_of_a_path_are_read_back(names: Seq<Seq<char>>)
    requires
        names.len() > 0,
        forall|k: int| 0 <= k < names.len() ==> (#[trigger] names[k]).len() > 0,
        forall|k: int, i: int|
            0 <= k < names.len() && 0 <= i < names[k].len() ==> #[trigger] names[k][i] != '/',
    ensures
        parts(put_together(names, '/')) == names,
        parts(put_together(seq![Seq::<char>::empty()] + names, '/')) == names,
        parts(put_together(names.push(Seq::empty()), '/')) == names,
{
    let nothing = Seq::<char>::empty();
    let rooted = seq![nothing] + names;
    let open = names.push(nothing);
    crate::spelling::law_fields_are_read_back(names, '/');
    lemma_all_non_empty(names);
    assert forall|k: int, i: int| 0 <= k < rooted.len() && 0 <= i < rooted[k].len() implies
        #[trigger] rooted[k][i] != '/' by {
        assert(k > 0 && rooted[k] == names[k - 1]);
        assert(names[k - 1][i] != '/');
    }
    crate::spelling::law_fields_are_read_back(rooted, '/');
    lemma_behind_nothing(names);
    assert forall|k: int, i: int| 0 <= k < open.len() && 0 <= i < open[k].len() implies
        #[trigger] open[k][i] != '/' by {
        assert(k < names.len() && open[k] == names[k]);
        assert(names[k][i] != '/');
    }
    crate::spelling::law_fields_are_read_back(open, '/');
    assert(open.drop_last() =~= names);
}

proof fn lemma_all_non_empty(names: Seq<Seq<char>>)
    requires
        forall|k: int| 0 <= k < names.len() ==> (#[trigger] names[k]).len() > 0,
    ensures
        non_empty(names) == names,
    decreases names.len(),
{
    if names.len() > 0 {
        assert(names[names.len() - 1].len() > 0);
        lemma_all_non_empty(names.drop_last());
        assert(names.drop_last().push(names.last()) =~= names);
    } else {
        assert(names =~= Seq::<Seq<char>>::empty());
    }
}

proof fn lemma_behind_nothing(names: Seq<Seq<char>>)
    requires
        forall|k: int| 0 <= k < names.len() ==> (#[trigger] names[k]).len() > 0,
    ensures
        non_empty(seq![Seq::<char>::empty()] + names) == names,
    decreases names.len(),
{
    let all = seq![Seq::<char>::empty()] + names;
    if names.len() > 0 {
        assert(all.drop_last() =~= seq![Seq::<char>::empty()] + names.drop_last());
        assert(all.last() == names[names.len() - 1]);
        lemma_behind_nothing(names.drop_last());
        assert(names.drop_last().push(names.last()) =~= names);
    } else {
        reveal_with_fuel(non_empty, 2);
        assert(all.drop_last() =~= Seq::<Seq<char>>::empty());
        assert(names =~= Seq::<Seq<char>>::empty());
    }
}

/// No part of a path is empty, and none holds a slash.
pub proof fn law_parts_of_a_path_are_names(path: Seq<char>, k: int)
    requires
        0 <= k < parts(path).len(),
    ensures
        parts(path)[k].len() > 0,
        forall|i: int| 0 <= i < parts(path)[k].len() ==> #[trigger] parts(path)[k][i] != '/',
{
    lemma_fields_hold_no_separator(path);
    lemma_non_empty(fields(path, '/'), k);
}

proof fn lemma_fields_hold_no_separator(path: Seq<char>)
    ensures
        fields(path, '/').len() > 0,
        forall|k: int, i: int|
            0 <= k < fields(path, '/').len() && 0 <= i < fields(path, '/')[k].len() ==> #[trigger]
                fields(path, '/')[k][i] != '/',
    decreases path.len(),
{
    if path.len() > 0 {
        lemma_fields_hold_no_separator(path.drop_last());
    }
}

proof fn lemma_non_empty(texts: Seq<Seq<char>>, k: int)
    requires
        0 <= k < non_empty(texts).len(),
    ensures
        non_empty(texts)[k].len() > 0,
        texts.contains(non_empty(texts)[k]),
    decreases texts.len(),
{
    if texts.len() > 0 {
        let before = non_empty(texts.drop_last());
        if k < before.len() {
            lemma_non_empty(texts.drop_last(), k);
            let i = choose|i: int|
                0 <= i < texts.drop_last().len() && texts.drop_last()[i] == before[k];
            assert(texts[i] == before[k]);
        } else {
            assert(texts[texts.len() - 1] == non_empty(texts)[k]);
        }
    }
}


} // verus!
