use vstd::prelude::*;

verus! {

/// The operating system family the program was built for; it decides which
/// managers are offered and how commands are started.
#[derive(Clone, Copy, PartialEq, Eq, Structural, Debug)]
pub enum Platform {
    Windows,
    Unix,
}

/// A command to start: the program and its arguments, in order.
#[derive(Debug)]
pub struct CommandLine {
    pub program: String,
    pub args: Vec<String>,
}

/// The characters of each string of a sequence.
pub open spec fn views_of_strs(s: Seq<&str>) -> Seq<Seq<char>> {
    s.map_values(|x: &str| x@)
}

/// The characters of each string of a sequence.
pub open spec fn views_of_strings(s: Seq<String>) -> Seq<Seq<char>> {
    s.map_values(|x: String| x@)
}

impl View for CommandLine {
    type V = (Seq<char>, Seq<Seq<char>>);

    open spec fn view(&self) -> (Seq<char>, Seq<Seq<char>>) {
        (self.program@, views_of_strings(self.args@))
    }
}

/// The command that starts `program` with `args` on `platform`: on Windows it
/// goes through `cmd /C` so that the program is found on the path.
pub open spec fn spec_build_command(program: Seq<char>, args: Seq<Seq<char>>, platform: Platform) -> (
    Seq<char>,
    Seq<Seq<char>>,
) {
    match platform {
        Platform::Windows => ("cmd"@, seq!["/C"@, program] + args),
        Platform::Unix => (program, args),
    }
}

/// Owned copies of the given strings.
fn owned_strings(args: &[&str]) -> (r: Vec<String>)
    ensures
        views_of_strings(r@) == views_of_strs(args@),
{
    let mut r: Vec<String> = Vec::new();
    let mut i: usize = 0;
    while i < args.len()
        invariant
            i <= args@.len(),
            r@.len() == i,
            forall|j: int| 0 <= j < i ==> #[trigger] r@[j]@ == args@[j]@,
        decreases args@.len() - i,
    {
        let s: String = args[i].to_owned();
        assert(s@ == args@[i as int]@);
        r.push(s);
        i = i + 1;
    }
    assert(views_of_strings(r@) =~= views_of_strs(args@));
    r
}

/// Builds the command that runs `program` with `args` on `platform`.
pub fn build_command(program: &str, args: &[&str], platform: Platform) -> (r: CommandLine)
    ensures
        r@ == spec_build_command(program@, views_of_strs(args@), platform),
{
    let owned = owned_strings(args);
    match platform {
        Platform::Windows => {
            let mut all: Vec<String> = Vec::new();
            all.push("/C".to_owned());
            all.push(program.to_owned());
            let mut i: usize = 0;
            while i < owned.len()
                invariant
                    i <= owned@.len(),
                    all@.len() == i + 2,
                    all@[0]@ == "/C"@,
                    all@[1]@ == program@,
                    forall|j: int| 0 <= j < i ==> #[trigger] all@[j + 2]@ == owned@[j]@,
                decreases owned@.len() - i,
            {
                let c: String = owned[i].clone();
                assert(c@ == owned@[i as int]@);
                all.push(c);
                i = i + 1;
            }
            assert(views_of_strings(all@) =~= seq!["/C"@, program@] + views_of_strings(owned@)) by {
                assert forall|j: int| 0 <= j < all@.len() implies #[trigger] views_of_strings(all@)[j]
                    == (seq!["/C"@, program@] + views_of_strings(owned@))[j] by {
                    if j >= 2 {
                        assert(all@[(j - 2) + 2]@ == owned@[j - 2]@);
                    }
                }
            }
            CommandLine { program: "cmd".to_owned(), args: all }
        },
        Platform::Unix => CommandLine { program: program.to_owned(), args: owned },
    }
}

} // verus!
