use vstd::prelude::*;

verus! {

/// What a best-effort batch deletion did: every key was attempted, and each
/// ended up in exactly one of the two lists, in request order.
#[verifier::reject_recursive_types(E)]
pub struct BatchOutcome<E> {
    pub succeeded: Vec<String>,
    pub failed: Vec<(String, E)>,
}

/// The keys whose deletion succeeded, in order.
pub open spec fn succeeded_keys<E>(items: Seq<(String, Result<(), E>)>) -> Seq<Seq<char>>
    decreases items.len(),
{
    if items.len() == 0 {
        seq![]
    } else {
        let rest = succeeded_keys(items.drop_first());
        if items[0].1 is Ok {
            seq![items[0].0@] + rest
        } else {
            rest
        }
    }
}

/// The keys whose deletion failed, each with its cause, in order.
pub open spec fn failed_keys<E>(items: Seq<(String, Result<(), E>)>) -> Seq<(Seq<char>, E)>
    decreases items.len(),
{
    if items.len() == 0 {
        seq![]
    } else {
        let rest = failed_keys(items.drop_first());
        match items[0].1 {
            Ok(_) => rest,
            Err(e) => seq![(items[0].0@, e)] + rest,
        }
    }
}

pub open spec fn failed_view<E>(f: Seq<(String, E)>) -> Seq<(Seq<char>, E)> {
    f.map_values(|p: (String, E)| (p.0@, p.1))
}

pub open spec fn strings_of(s: Seq<String>) -> Seq<Seq<char>> {
    s.map_values(|x: String| x@)
}

/// Sorts the per-key results of a batch deletion into the succeeded keys and
/// the failed keys with their causes.
pub fn split_batch<E>(items: Vec<(String, Result<(), E>)>) -> (r: BatchOutcome<E>)
    ensures
        strings_of(r.succeeded@) == succeeded_keys(items@),
        failed_view(r.failed@) == failed_keys(items@),
{
    let ghost orig = items@;
    let mut items = items;
    let mut succeeded: Vec<String> = Vec::new();
    let mut failed: Vec<(String, E)> = Vec::new();
    while items.len() > 0
        invariant
            items@.len() <= orig.len(),
            items@ == orig.take(items@.len() as int),
            strings_of(succeeded@) == succeeded_keys(orig.skip(items@.len() as int)),
            failed_view(failed@) == failed_keys(orig.skip(items@.len() as int)),
        decreases items@.len(),
    {
        let ghost k = items@.len() as int;
        assert(orig.skip(k - 1).drop_first() =~= orig.skip(k));
        assert(orig.skip(k - 1)[0] == orig[k - 1]);
        let ghost old_s = strings_of(succeeded@);
        let ghost old_f = failed_view(failed@);
        match items.pop() {
            Some((key, res)) => {
                assert(items@ =~= orig.take(k - 1));
                match res {
                    Ok(()) => {
                        succeeded.insert(0, key);
                        assert(strings_of(succeeded@) =~= seq![orig[k - 1].0@] + old_s);
                    },
                    Err(e) => {
                        failed.insert(0, (key, e));
                        assert(failed_view(failed@) =~= seq![(orig[k - 1].0@, orig[k - 1].1->Err_0)] + old_f);
                    },
                }
            },
            None => {},
        }
    }
    assert(orig.skip(0) =~= orig);
    BatchOutcome { succeeded, failed }
}

} // verus!
