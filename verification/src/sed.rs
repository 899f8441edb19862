//! The script-collection rule of the stream editor's command line: the
//! scripts given positionally, through expression options and through
//! script files are gathered in argument order, and the input files
//! follow, with standard input standing in when none are named.

use vstd::prelude::*;

verus! {

/// The specification of a script: through a string or a file.
#[derive(Debug, PartialEq)]
pub enum ScriptValue {
    StringVal(String),
    PathVal(String),
}

/// The mathematical content of a script specification.
pub enum ScriptValueView {
    StringVal(Seq<char>),
    PathVal(Seq<char>),
}

impl View for ScriptValue {
    type V = ScriptValueView;

    open spec fn view(&self) -> ScriptValueView {
        match self {
            ScriptValue::StringVal(s) => ScriptValueView::StringVal(s@),
            ScriptValue::PathVal(s) => ScriptValueView::PathVal(s@),
        }
    }
}

/// The views of a script list, in order.
pub open spec fn scripts_view(s: Seq<ScriptValue>) -> Seq<ScriptValueView> {
    s.map(|i: int, v: ScriptValue| v@)
}

/// The views of a file list, in order.
pub open spec fn files_view(s: Seq<String>) -> Seq<Seq<char>> {
    s.map(|i: int, f: String| f@)
}

/// What the argument parser hands over: the positional script, the
/// expression occurrences and the script-file occurrences each with
/// their argument position, and the positional input files.
#[derive(Debug)]
pub struct ScriptArgs {
    pub script: Option<String>,
    pub expressions: Vec<(usize, String)>,
    pub script_files: Vec<(usize, String)>,
    pub files: Vec<String>,
}

/// Occurrences come in ascending argument order.
pub open spec fn sorted_by_index(v: Seq<(usize, String)>) -> bool {
    forall|i: int, j: int| 0 <= i < j < v.len() ==> (#[trigger] v[i]).0 <= (#[trigger] v[j]).0
}

/// The expression and script-file occurrences merged by argument
/// position, expressions first on a tie: the order the scripts were
/// given on the command line.
pub open spec fn merge_scripts(
    a: Seq<(usize, String)>,
    b: Seq<(usize, String)>,
) -> Seq<ScriptValueView>
    decreases a.len() + b.len(),
{
    if a.len() == 0 && b.len() == 0 {
        Seq::empty()
    } else if b.len() == 0 || (a.len() > 0 && a[0].0 <= b[0].0) {
        seq![ScriptValueView::StringVal(a[0].1@)] + merge_scripts(a.drop_first(), b)
    } else {
        seq![ScriptValueView::PathVal(b[0].1@)] + merge_scripts(a, b.drop_first())
    }
}

/// Merges the two occurrence lists from positions `i` and `j` on,
/// appending to `out`.
fn merge_rec(
    a: &Vec<(usize, String)>,
    b: &Vec<(usize, String)>,
    i: usize,
    j: usize,
    out: &mut Vec<ScriptValue>,
)
    requires
        i <= a@.len(),
        j <= b@.len(),
    ensures
        scripts_view(final(out)@) == scripts_view(old(out)@) + merge_scripts(
            a@.skip(i as int),
            b@.skip(j as int),
        ),
    decreases a@.len() - i + b@.len() - j,
{
    let na = a.len();
    let nb = b.len();
    let ghost sa = a@.skip(i as int);
    let ghost sb = b@.skip(j as int);
    if i < na && (j >= nb || a[i].0 <= b[j].0) {
        assert(sa[0] == a@[i as int]);
        let ghost before = out@;
        out.push(ScriptValue::StringVal(a[i].1.clone()));
        proof {
            assert(forall|k: int| 0 <= k < before.len() ==> #[trigger] out@[k] == before[k]);
            assert(scripts_view(out@) =~= scripts_view(before) + seq![
                ScriptValueView::StringVal(a@[i as int].1@),
            ]);
        }
        merge_rec(a, b, i + 1, j, out);
        proof {
            assert(sa.drop_first() =~= a@.skip(i + 1));
            assert(merge_scripts(sa, sb) == seq![ScriptValueView::StringVal(a@[i as int].1@)]
                + merge_scripts(a@.skip(i + 1), sb));
            assert(scripts_view(out@) =~= scripts_view(before) + merge_scripts(sa, sb));
        }
    } else if j < nb {
        assert(sb[0] == b@[j as int]);
        let ghost before = out@;
        out.push(ScriptValue::PathVal(b[j].1.clone()));
        proof {
            assert(forall|k: int| 0 <= k < before.len() ==> #[trigger] out@[k] == before[k]);
            assert(scripts_view(out@) =~= scripts_view(before) + seq![
                ScriptValueView::PathVal(b@[j as int].1@),
            ]);
        }
        merge_rec(a, b, i, j + 1, out);
        proof {
            assert(sb.drop_first() =~= b@.skip(j + 1));
            assert(merge_scripts(sa, sb) == seq![ScriptValueView::PathVal(b@[j as int].1@)]
                + merge_scripts(sa, b@.skip(j + 1)));
            assert(scripts_view(out@) =~= scripts_view(before) + merge_scripts(sa, sb));
        }
    } else {
        proof {
            assert(sa.len() == 0 && sb.len() == 0);
            assert(scripts_view(out@) =~= scripts_view(out@) + merge_scripts(sa, sb));
        }
    }
}

/// The input files the run will read: the positional script where it
/// stands for a file, then the named files, with standard input when
/// the list would be empty.
pub open spec fn expected_files(args: &ScriptArgs) -> Seq<Seq<char>> {
    let head: Seq<Seq<char>> = if (args.expressions@.len() > 0 || args.script_files@.len() > 0)
        && args.script is Some {
        seq![args.script->Some_0@]
    } else {
        Seq::empty()
    };
    let named = head + files_view(args.files@);
    if named.len() == 0 {
        seq!["-"@]
    } else {
        named
    }
}

/// The scripts the run will execute, in argument order: the merged
/// option occurrences, or the positional script alone.
pub open spec fn expected_scripts(args: &ScriptArgs) -> Seq<ScriptValueView> {
    if args.expressions@.len() > 0 || args.script_files@.len() > 0 {
        merge_scripts(args.expressions@, args.script_files@)
    } else {
        match args.script {
            Some(s) => seq![ScriptValueView::StringVal(s@)],
            None => Seq::empty(),
        }
    }
}

/// Gathers the scripts and input files in the order the arguments gave
/// them.  When scripts come through options, a positional script value
/// is an input file instead; when no script is given at all, the run
/// fails with a missing-script message; when no file is named,
/// standard input (`-`) stands in.
pub fn get_scripts_files(args: &ScriptArgs) -> (r: Result<
    (Vec<ScriptValue>, Vec<String>),
    String,
>)
    ensures
        match r {
            Ok((scripts, files)) => {
                &&& (args.script is Some || args.expressions@.len() > 0
                    || args.script_files@.len() > 0)
                &&& scripts_view(scripts@) == expected_scripts(args)
                &&& files_view(files@) == expected_files(args)
            },
            Err(m) => {
                &&& args.script is None
                &&& args.expressions@.len() == 0
                &&& args.script_files@.len() == 0
                &&& m@ == "missing script"@
            },
        },
{
    let mut scripts: Vec<ScriptValue> = Vec::new();
    let mut files: Vec<String> = Vec::new();
    let script_through_options = args.expressions.len() > 0 || args.script_files.len() > 0;
    if script_through_options {
        match &args.script {
            Some(s) => {
                files.push(s.clone());
                assert(files_view(files@) =~= seq![args.script->Some_0@]);
                assert(files@.len() == 1);
            },
            None => {},
        }
    } else {
        match &args.script {
            Some(s) => {
                scripts.push(ScriptValue::StringVal(s.clone()));
            },
            None => {
                return Err("missing script".to_owned());
            },
        }
    }
    merge_rec(&args.expressions, &args.script_files, 0, 0, &mut scripts);
    proof {
        assert(args.expressions@.skip(0) =~= args.expressions@);
        assert(args.script_files@.skip(0) =~= args.script_files@);
        if !script_through_options {
            assert(args.expressions@.len() == 0 && args.script_files@.len() == 0);
            assert(merge_scripts(args.expressions@, args.script_files@) =~= Seq::<
                ScriptValueView,
            >::empty());
        }
        assert(scripts_view(scripts@) =~= expected_scripts(args));
    }
    let ghost head = files_view(files@);
    proof {
        if (args.expressions@.len() > 0 || args.script_files@.len() > 0) && args.script is Some {
            assert(head =~= seq![args.script->Some_0@]);
        } else {
            assert(head =~= Seq::<Seq<char>>::empty());
        }
    }
    let nf = args.files.len();
    let mut k: usize = 0;
    while k < nf
        invariant
            k <= nf,
            nf == args.files@.len(),
            files_view(files@) == head + files_view(args.files@).take(k as int),
        decreases nf - k,
    {
        let ghost before = files@;
        files.push(args.files[k].clone());
        proof {
            assert(forall|t: int| 0 <= t < before.len() ==> #[trigger] files@[t] == before[t]);
            assert(files_view(files@) =~= files_view(before) + seq![args.files@[k as int]@]);
            assert(files_view(args.files@).take(k + 1) =~= files_view(args.files@).take(
                k as int,
            ) + seq![args.files@[k as int]@]);
        }
        k = k + 1;
    }
    proof {
        assert(files_view(args.files@).take(nf as int) =~= files_view(args.files@));
        assert(files_view(files@) == head + files_view(args.files@));
    }
    if files.len() == 0 {
        assert((head + files_view(args.files@)).len() == 0);
        files.push("-".to_owned());
        assert(files_view(files@) =~= seq!["-"@]);
    }
    assert(files_view(files@) =~= expected_files(args));
    Ok((scripts, files))
}

} // verus!
