use vstd::prelude::*;

pub mod grammar;
pub mod lemmas;
pub mod two_stacks;
pub mod utils;

verus! {

/// The name of the algorithm selected when none, or an unknown one, is asked for.
pub open spec fn two_stacks_name() -> Seq<char> {
    seq!['T', 'w', 'o', 'S', 't', 'a', 'c', 'k', 's']
}

pub open spec fn polish_name() -> Seq<char> {
    seq!['P', 'o', 'l', 'i', 's', 'h']
}

/// The algorithm that the arguments select.
pub open spec fn selected_algorithm(args: Seq<Seq<char>>) -> Seq<char> {
    if args.len() >= 3 && args[2] == polish_name() {
        polish_name()
    } else {
        two_stacks_name()
    }
}

/// Whether the command line arguments (program name first) can make a configuration.
pub open spec fn args_usable(args: Seq<Seq<char>>) -> bool {
    args.len() >= 2 && args[1].len() >= 3
}

/// The expression to reduce and the algorithm to reduce it with.
pub struct Config<'a> {
    expr: &'a str,
    alg: &'a str,
}

impl<'a> View for Config<'a> {
    /// The expression and the algorithm name.
    type V = (Seq<char>, Seq<char>);

    closed spec fn view(&self) -> (Seq<char>, Seq<char>) {
        (self.expr@, self.alg@)
    }
}

impl<'a> Config<'a> {
    /// Makes a configuration from the command line arguments: the expression comes second, and
    /// an optional third argument selects the algorithm ("TwoStacks" unless it is "Polish").
    pub fn new(args: &Vec<String>) -> (r: Result<Config, &str>)
        ensures
            r is Ok <==> args_usable(args@.map_values(|s: String| s@)),
            args@.len() < 2 ==> r is Err && r->Err_0@
                == "One CLI argument is required: Expression"@,
            args@.len() >= 2 && args@[1]@.len() < 3 ==> r is Err && r->Err_0@
                == "The expression must have at least 3 members!"@,
            r is Ok ==> r->Ok_0@ == (
                args@[1]@,
                selected_algorithm(args@.map_values(|s: String| s@)),
            ),
    {
        let ghost views = args@.map_values(|s: String| s@);
        proof {
            reveal_strlit("One CLI argument is required: Expression");
            reveal_strlit("The expression must have at least 3 members!");
        }
        if args.len() < 2 {
            return Err("One CLI argument is required: Expression");
        }
        if args[1].as_str().unicode_len() < 3 {
            return Err("The expression must have at least 3 members!");
        }
        let expr = args[1].as_str();
        let alg: &str;
        proof {
            reveal_strlit("TwoStacks");
            reveal_strlit("Polish");
        }
        if args.len() < 3 {
            alg = "TwoStacks";
            assert(alg@ =~= two_stacks_name());
        } else {
            let polish = String::from_str("Polish");
            assert(polish@ =~= polish_name());
            if args[2] == polish {
                alg = args[2].as_str();
            } else {
                alg = "TwoStacks";
                assert(alg@ =~= two_stacks_name());
            }
            assert(views[2] == args@[2]@);
        }
        Ok(Config { expr, alg })
    }

    /// The expression to reduce.
    pub fn expression(&self) -> (r: &str)
        ensures
            r@ == self@.0,
    {
        self.expr
    }

    /// The name of the selected algorithm.
    pub fn alg_type(&self) -> (r: &str)
        ensures
            r@ == self@.1,
    {
        self.alg
    }
}

} // verus!
