//! Command-line planning: turn the argument list into the sequence of target
//! folders to check, each with the configuration file name and check toggles
//! in force at its position, plus a help flag.

use vstd::prelude::*;
use crate::text::{eq_str, str_views};

verus! {

/// One folder to check, with the settings in force when it was named.
pub struct Target {
    pub folder: String,
    pub gir_file: String,
    pub check_manual_traits: bool,
    pub check_license: bool,
}

/// What a run of the checker should do.
pub struct ArgsPlan {
    pub help: bool,
    pub targets: Vec<Target>,
}

/// The plain-value view of one target.
pub open spec fn target_view(t: Target) -> (Seq<char>, Seq<char>, bool, bool) {
    (t.folder@, t.gir_file@, t.check_manual_traits, t.check_license)
}

/// The plain-value views of a sequence of targets.
pub open spec fn targets_view(v: Seq<Target>) -> Seq<(Seq<char>, Seq<char>, bool, bool)> {
    v.map_values(|t: Target| target_view(t))
}

/// The plan an argument list denotes, walked left to right with the current
/// configuration file name and check toggles as state: the file-name option
/// consumes its value and stays in force for the folders after it (naming it
/// last, without a value, ends the walk); the help options end the walk with
/// the help flag raised; the two `no-` options clear their toggle; every
/// other argument is a target folder.
pub open spec fn spec_plan(args: Seq<Seq<char>>, gir: Seq<char>, manual: bool, lic: bool) -> (
    bool,
    Seq<(Seq<char>, Seq<char>, bool, bool)>,
)
    decreases args.len(),
{
    if args.len() == 0 {
        (false, Seq::empty())
    } else {
        let a = args.first();
        if a == "--gir-file"@ {
            if args.len() == 1 {
                (false, Seq::empty())
            } else {
                spec_plan(args.skip(2), args[1], manual, lic)
            }
        } else if a == "--help"@ || a == "-h"@ {
            (true, Seq::empty())
        } else if a == "--no-manual-traits"@ {
            spec_plan(args.skip(1), gir, false, lic)
        } else if a == "--no-license"@ {
            spec_plan(args.skip(1), gir, manual, false)
        } else {
            let rest = spec_plan(args.skip(1), gir, manual, lic);
            (rest.0, seq![(a, gir, manual, lic)] + rest.1)
        }
    }
}

/// Turn the argument list into a plan, starting from the default
/// configuration file name and with both checks enabled.
pub fn parse_args(args: &Vec<String>) -> (r: ArgsPlan)
    ensures
        r.help == spec_plan(str_views(args@), "Gir.toml"@, true, true).0,
        targets_view(r.targets@) == spec_plan(str_views(args@), "Gir.toml"@, true, true).1,
{
    let ghost av = str_views(args@);
    let ghost goal = spec_plan(av, "Gir.toml"@, true, true);
    let mut gir: String = "Gir.toml".to_owned();
    let mut manual: bool = true;
    let mut lic: bool = true;
    let mut targets: Vec<Target> = Vec::new();
    let mut help = false;
    let mut done = false;
    let n = args.len();
    let mut i: usize = 0;
    proof {
        assert(av.skip(0) =~= av);
        assert(targets_view(targets@) + goal.1 =~= goal.1);
    }
    while i < n && !done
        invariant
            0 <= i <= n,
            n == args@.len(),
            av == str_views(args@),
            av.len() == n,
            goal == spec_plan(av, "Gir.toml"@, true, true),
            !done ==> help == false,
            !done ==> goal.0 == spec_plan(av.skip(i as int), gir@, manual, lic).0,
            !done ==> goal.1 == targets_view(targets@) + spec_plan(
                av.skip(i as int),
                gir@,
                manual,
                lic,
            ).1,
            done ==> goal.0 == help,
            done ==> goal.1 == targets_view(targets@),
        decreases n - i + (if done { 0int } else { 1int }),
    {
        let ghost sub = spec_plan(av.skip(i as int), gir@, manual, lic);
        proof {
            assert(av.skip(i as int).len() == n - i);
            assert(av.skip(i as int).first() == args@[i as int]@);
            if i + 1 < n {
                assert(av.skip(i as int)[1int] == av[i + 1]);
            }
        }
        let arg = &args[i];
        if eq_str(arg.as_str(), "--gir-file") {
            if i + 1 >= n {
                proof {
                    assert(sub == (false, Seq::<(Seq<char>, Seq<char>, bool, bool)>::empty()));
                    assert(goal.1 =~= targets_view(targets@));
                }
                done = true;
            } else {
                gir = args[i + 1].clone();
                proof {
                    assert(av.skip(i as int).skip(2) =~= av.skip(i + 2));
                    assert(av.skip(i as int)[1] == args@[i + 1]@);
                }
                i = i + 2;
            }
        } else if eq_str(arg.as_str(), "--help") || eq_str(arg.as_str(), "-h") {
            help = true;
            proof {
                assert(sub.0 == true);
                assert(sub.1 =~= Seq::<(Seq<char>, Seq<char>, bool, bool)>::empty());
                assert(goal.1 =~= targets_view(targets@));
            }
            done = true;
        } else if eq_str(arg.as_str(), "--no-manual-traits") {
            manual = false;
            proof {
                assert(av.skip(i as int).skip(1) =~= av.skip(i + 1));
            }
            i = i + 1;
        } else if eq_str(arg.as_str(), "--no-license") {
            lic = false;
            proof {
                assert(av.skip(i as int).skip(1) =~= av.skip(i + 1));
            }
            i = i + 1;
        } else {
            let t = Target {
                folder: arg.clone(),
                gir_file: gir.clone(),
                check_manual_traits: manual,
                check_license: lic,
            };
            proof {
                assert(av.skip(i as int).skip(1) =~= av.skip(i + 1));
                let rest = spec_plan(av.skip(i + 1), gir@, manual, lic);
                assert(sub.1 == seq![(args@[i as int]@, gir@, manual, lic)] + rest.1);
                assert(target_view(t) == (args@[i as int]@, gir@, manual, lic));
                assert(targets_view(targets@.push(t)) =~= targets_view(targets@).push(
                    target_view(t),
                ));
                assert(targets_view(targets@) + sub.1 =~= targets_view(targets@.push(t)) + rest.1);
            }
            targets.push(t);
            i = i + 1;
        }
    }
    proof {
        if !done {
            assert(av.skip(n as int) =~= Seq::<Seq<char>>::empty());
            assert(spec_plan(av.skip(n as int), gir@, manual, lic) == (
                false,
                Seq::<(Seq<char>, Seq<char>, bool, bool)>::empty(),
            ));
            assert(goal.1 =~= targets_view(targets@));
        }
    }
    ArgsPlan { help, targets }
}

} // verus!
