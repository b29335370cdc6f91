//! Copies of files with their sensitive values replaced: where they are written.
use crate::cli_error::{plain_error, CliError, CliErrorView};
use crate::dictionaries::opt_str;
use crate::pager_command::text_result;
use crate::paths::{
    directory, directory_of, file_name, file_name_of, join_path, joined_path, mark_name,
    marked_name,
};
use crate::text::{copy_of, contains_text, texts};
use vstd::prelude::*;

verus! {

broadcast use vstd::seq_lib::group_seq_properties;

/// Where the copy of a file is written: beside it, or in a directory for copies.
pub open spec fn secret_path(input: Seq<char>, dir: Option<Seq<char>>) -> Result<
    Seq<char>,
    CliErrorView,
> {
    match file_name_of(input) {
        None => Err(plain_error("input path "@ + (input + " has no file name"@))),
        Some(name) => Ok(
            joined_path(
                match dir {
                    Some(dir) => dir,
                    None => directory_of(input),
                },
                marked_name(name, "secret"@),
            ),
        ),
    }
}

/// Where the copy of a file is written: beside it, or in a directory for copies.
pub fn secret_output_path(input: &str, secret_dir: Option<&str>) -> (path: Result<String, CliError>)
    ensures
        text_result(path) == secret_path(input@, opt_str(secret_dir)),
{
    let name = match file_name(input) {
        Some(name) => name,
        None => {
            let mut detail = copy_of(input);
            detail.append(" has no file name");
            return Err(CliError::plain("input path ", detail.as_str()));
        },
    };
    let marked = mark_name(name.as_str(), "secret");
    match secret_dir {
        Some(dir) => Ok(join_path(dir, marked.as_str())),
        None => Ok(join_path(directory(input).as_str(), marked.as_str())),
    }
}

/// A copy that is to be written.
#[derive(Debug)]
pub struct PlannedOutput {
    pub input: String,
    pub output: String,
}

/// The mathematical content of a `PlannedOutput`: the file, and its copy.
pub open spec fn planned_views(plan: Seq<PlannedOutput>) -> Seq<(Seq<char>, Seq<char>)> {
    plan.map_values(|p: PlannedOutput| (p.input@, p.output@))
}

/// The copies of files, none of which exists already or is shared by two files.
pub open spec fn plan_for(
    inputs: Seq<Seq<char>>,
    dir: Option<Seq<char>>,
    existing: Seq<Seq<char>>,
) -> Result<Seq<(Seq<char>, Seq<char>)>, CliErrorView>
    decreases inputs.len(),
{
    if inputs.len() == 0 {
        Ok(seq![])
    } else {
        match plan_for(inputs.drop_last(), dir, existing) {
            Err(error) => Err(error),
            Ok(earlier) => match secret_path(inputs.last(), dir) {
                Err(error) => Err(error),
                Ok(output) => if existing.contains(output) {
                    Err(plain_error("refusing to overwrite existing secret file "@ + output))
                } else if earlier.map_values(|p: (Seq<char>, Seq<char>)| p.1).contains(
                    output,
                ) {
                    Err(plain_error("secret output path collision at "@ + output))
                } else {
                    Ok(earlier.push((inputs.last(), output)))
                },
            },
        }
    }
}

proof fn lemma_plan_stops(
    inputs: Seq<Seq<char>>,
    n: int,
    dir: Option<Seq<char>>,
    existing: Seq<Seq<char>>,
)
    requires
        0 <= n <= inputs.len(),
        plan_for(inputs.take(n), dir, existing) is Err,
    ensures
        plan_for(inputs, dir, existing) == plan_for(inputs.take(n), dir, existing),
    decreases inputs.len() - n,
{
    if n < inputs.len() {
        assert(inputs.take(n + 1).drop_last() =~= inputs.take(n));
        lemma_plan_stops(inputs, n + 1, dir, existing);
    } else {
        assert(inputs.take(n) =~= inputs);
    }
}

pub open spec fn plan_result(result: Result<Vec<PlannedOutput>, CliError>) -> Result<
    Seq<(Seq<char>, Seq<char>)>,
    CliErrorView,
> {
    match result {
        Ok(plan) => Ok(planned_views(plan@)),
        Err(error) => Err(error@),
    }
}

/// The copies of files. A copy that would overwrite one of the `existing` files is refused, and
/// so are two files that would share a copy.
pub fn plan_secret_outputs(
    inputs: &Vec<String>,
    secret_dir: Option<&str>,
    existing: &Vec<String>,
) -> (plan: Result<Vec<PlannedOutput>, CliError>)
    ensures
        plan_result(plan) == plan_for(texts(inputs@), opt_str(secret_dir), texts(existing@)),
{
    let ghost all = texts(inputs@);
    let ghost there = texts(existing@);
    let ghost dir = opt_str(secret_dir);
    let mut plan: Vec<PlannedOutput> = Vec::new();
    let mut seen: Vec<String> = Vec::new();
    let mut i: usize = 0;
    assert(all.take(0) =~= seq![]);
    assert(planned_views(plan@) =~= seq![]);
    assert(texts(seen@) =~= planned_views(plan@).map_values(|p: (Seq<char>, Seq<char>)| p.1));
    while i < inputs.len()
        invariant
            i <= inputs@.len(),
            all == texts(inputs@),
            dir == opt_str(secret_dir),
            there == texts(existing@),
            plan_for(all.take(i as int), dir, there) == Ok::<Seq<(Seq<char>, Seq<char>)>, CliErrorView>(
                planned_views(plan@),
            ),
            texts(seen@) == planned_views(plan@).map_values(|p: (Seq<char>, Seq<char>)| p.1),
        decreases inputs@.len() - i,
    {
        assert(all[i as int] == inputs@[i as int]@);
        assert(all.take(i + 1).drop_last() =~= all.take(i as int));
        let output = match secret_output_path(inputs[i].as_str(), secret_dir) {
            Ok(output) => output,
            Err(error) => {
                proof {
                    lemma_plan_stops(all, i + 1, dir, there);
                }
                return Err(error);
            },
        };
        if contains_text(existing, output.as_str()) {
            proof {
                lemma_plan_stops(all, i + 1, dir, there);
            }
            return Err(
                CliError::plain("refusing to overwrite existing secret file ", output.as_str()),
            );
        }
        if contains_text(&seen, output.as_str()) {
            proof {
                lemma_plan_stops(all, i + 1, dir, there);
            }
            return Err(CliError::plain("secret output path collision at ", output.as_str()));
        }
        let ghost before = planned_views(plan@);
        let ghost noted = texts(seen@);
        seen.push(copy_of(output.as_str()));
        assert(texts(seen@) =~= noted.push(output@));
        let item = PlannedOutput { input: copy_of(inputs[i].as_str()), output };
        let ghost view = (item.input@, item.output@);
        plan.push(item);
        assert(planned_views(plan@) =~= before.push(view));
        assert(planned_views(plan@).map_values(|p: (Seq<char>, Seq<char>)| p.1) =~= noted.push(
            view.1,
        ));
        i += 1;
    }
    assert(all.take(i as int) =~= all);
    Ok(plan)
}

/// Each file gets a copy of its own: a plan has all files in their order, no two of its copies
/// are the same, and none of them exists already.
pub proof fn law_copies_are_distinct(
    inputs: Seq<Seq<char>>,
    dir: Option<Seq<char>>,
    existing: Seq<Seq<char>>,
)
    ensures
        plan_for(inputs, dir, existing) matches Ok(plan) ==> {
            &&& plan.len() == inputs.len()
            &&& forall|i: int| 0 <= i < plan.len() ==> (#[trigger] plan[i]).0 == inputs[i]
            &&& forall|i: int, j: int|
                0 <= i < j < plan.len() ==> (#[trigger] plan[i]).1 != (#[trigger] plan[j]).1
            &&& forall|i: int| 0 <= i < plan.len() ==> !existing.contains((#[trigger] plan[i]).1)
        },
    decreases inputs.len(),
{
    if inputs.len() > 0 {
        law_copies_are_distinct(inputs.drop_last(), dir, existing);
        if let Ok(plan) = plan_for(inputs, dir, existing) {
            let earlier = plan_for(inputs.drop_last(), dir, existing)->Ok_0;
            assert(plan =~= earlier.push(plan.last()));
            let outputs = earlier.map_values(|p: (Seq<char>, Seq<char>)| p.1);
            assert forall|i: int, j: int| 0 <= i < j < plan.len() implies (
            #[trigger] plan[i]).1 != (#[trigger] plan[j]).1 by {
                assert(plan[i] == earlier[i]);
                assert(outputs[i] == earlier[i].1);
                if j < earlier.len() {
                    assert(plan[j] == earlier[j]);
                }
            }
            assert forall|i: int| 0 <= i < plan.len() implies !existing.contains(
                (#[trigger] plan[i]).1,
            ) by {
                if i < earlier.len() {
                    assert(plan[i] == earlier[i]);
                }
            }
            assert forall|i: int| 0 <= i < plan.len() implies (#[trigger] plan[i]).0
                == inputs[i] by {
                if i < earlier.len() {
                    assert(plan[i] == earlier[i]);
                    assert(inputs.drop_last()[i] == inputs[i]);
                }
            }
        }
    }
}

} // verus!
