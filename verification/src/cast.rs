//! Casting a row of text to the types of the output, one expression per
//! column. What an expression means is the evaluator's business: the caller
//! brings it as a function.

use vstd::prelude::*;

verus! {

/// Whether the evaluator can be called on every expression and row.
pub open spec fn total<C, D, F: Fn(&C, &Vec<Option<String>>) -> Result<D, String>>(
    eval: &F,
) -> bool {
    forall|c: &C, datums: &Vec<Option<String>>| #[trigger] eval.requires((c, datums))
}

/// Whether `row` can come out of evaluating each of `casts` on `datums`.
pub open spec fn casts_to<C, D, F: Fn(&C, &Vec<Option<String>>) -> Result<D, String>>(
    eval: &F,
    casts: Seq<C>,
    datums: &Vec<Option<String>>,
    row: Seq<D>,
) -> bool {
    &&& row.len() == casts.len()
    &&& forall|i: int|
        0 <= i < casts.len() ==> eval.ensures((&casts[i], datums), Ok::<D, String>(#[trigger] row[i]))
}

/// Whether evaluating `casts` on `datums` in order can fail with the error
/// `text`: some expression gives it after all before it have given a value.
pub open spec fn cast_fails<C, D, F: Fn(&C, &Vec<Option<String>>) -> Result<D, String>>(
    eval: &F,
    casts: Seq<C>,
    datums: &Vec<Option<String>>,
    text: Seq<char>,
) -> bool {
    exists|done: Seq<D>, e: String|
        {
            &&& done.len() < casts.len()
            &&& #[trigger] casts_to(eval, casts.take(done.len() as int), datums, done)
            &&& e@ == text
            &&& #[trigger] eval.ensures((&casts[done.len() as int], datums), Err::<D, String>(e))
        }
}

/// Casts a row of text into the target types: evaluates each expression of
/// `table_cast` on the whole row, in order, and stops at the first error.
pub fn cast_row<C, D, F: Fn(&C, &Vec<Option<String>>) -> Result<D, String>>(
    table_cast: &Vec<C>,
    datums: &Vec<Option<String>>,
    eval: &F,
) -> (res: Result<Vec<D>, String>)
    requires
        total(eval),
    ensures
        match res {
            Ok(row) => casts_to(eval, table_cast@, datums, row@),
            Err(e) => cast_fails(eval, table_cast@, datums, e@),
        },
{
    let mut row: Vec<D> = Vec::new();
    let mut i: usize = 0;
    while i < table_cast.len()
        invariant
            i <= table_cast@.len(),
            row@.len() == i,
            total(eval),
            casts_to(eval, table_cast@.take(i as int), datums, row@),
        decreases table_cast@.len() - i,
    {
        match eval(&table_cast[i], datums) {
            Ok(datum) => {
                let ghost before = row@;
                row.push(datum);
                proof {
                    let head = table_cast@.take(i + 1);
                    assert forall|j: int| 0 <= j < head.len() implies eval.ensures(
                        (&head[j], datums),
                        Ok::<D, String>(#[trigger] row@[j]),
                    ) by {
                        if j < i {
                            assert(head[j] == table_cast@.take(i as int)[j]);
                            assert(row@[j] == before[j]);
                        }
                    }
                }
            },
            Err(e) => {
                proof {
                    assert(casts_to(eval, table_cast@.take(row@.len() as int), datums, row@));
                    assert(eval.ensures(
                        (&table_cast@[row@.len() as int], datums),
                        Err::<D, String>(e),
                    ));
                }
                return Err(e);
            },
        }
        i = i + 1;
    }
    proof {
        assert(table_cast@.take(i as int) =~= table_cast@);
    }
    Ok(row)
}

} // verus!
