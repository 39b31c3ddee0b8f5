use vstd::prelude::*;
use crate::ast::{Statement, views, key_names, leftover, join_spaced, chord_text};

verus! {

/// Appends the key names of `ss` to `names`, depth first.
fn collect_key_names(ss: &Vec<Statement>, names: &mut Vec<String>)
    ensures
        views(final(names)@) == views(old(names)@) + key_names(ss@),
    decreases ss@,
{
    let ghost start = views(names@);
    let mut i: usize = 0;
    while i < ss.len()
        invariant
            i <= ss@.len(),
            views(names@) == start + key_names(ss@.subrange(0, i as int)),
        decreases ss@.len() - i,
    {
        let ghost before = views(names@);
        match &ss[i] {
            Statement::CommandKey { statements, remaining_keys } => {
                assert(decreases_to!(ss@ => ss@[i as int]));
                collect_key_names(statements, names);
                if remaining_keys.as_str().unicode_len() > 0 {
                    names.push(remaining_keys.clone());
                }
                assert(views(names@) =~= before + key_names(statements@) + leftover(
                    remaining_keys@,
                ));
            },
            Statement::CommandKeyValue(name) => {
                names.push(name.clone());
                assert(views(names@) =~= before + seq![name@]);
            },
            _ => {
                assert(views(names@) =~= before);
            },
        }
        proof {
            let prefix = ss@.subrange(0, i as int + 1);
            assert(prefix.drop_last() =~= ss@.subrange(0, i as int));
            assert(prefix.last() == ss@[i as int]);
            assert(views(names@) =~= start + key_names(prefix));
        }
        i = i + 1;
    }
    assert(ss@.subrange(0, ss@.len() as int) =~= ss@);
}

/// Joins the strings with single spaces.
fn join_with_spaces(words: &Vec<String>) -> (r: String)
    ensures
        r@ == join_spaced(views(words@)),
{
    let mut out = String::new();
    let mut i: usize = 0;
    while i < words.len()
        invariant
            i <= words@.len(),
            out@ == join_spaced(views(words@.subrange(0, i as int))),
        decreases words@.len() - i,
    {
        let ghost prefix = views(words@.subrange(0, i as int + 1));
        assert(prefix.drop_last() =~= views(words@.subrange(0, i as int)));
        if i > 0 {
            out.append(" ");
            proof { reveal_strlit(" "); }
        }
        out.append(words[i].as_str());
        assert(out@ =~= join_spaced(prefix));
        i = i + 1;
    }
    assert(words@.subrange(0, words@.len() as int) =~= words@);
    out
}

/// Flattens a key chord into the one command line it stands for: the key
/// names of its key statements, depth first, then its leftover keys when
/// there are any, joined by single spaces.
pub fn flatten_chord(statements: &Vec<Statement>, remaining_keys: &String) -> (r: String)
    ensures
        r@ == chord_text(statements@, remaining_keys@),
{
    let mut names: Vec<String> = Vec::new();
    collect_key_names(statements, &mut names);
    if remaining_keys.as_str().unicode_len() > 0 {
        names.push(remaining_keys.clone());
    }
    assert(views(names@) =~= key_names(statements@) + leftover(remaining_keys@));
    join_with_spaces(&names)
}

} // verus!
