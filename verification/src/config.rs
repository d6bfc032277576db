use vstd::prelude::*;

verus! {

/// What `Config::new` answers when the program's name is not followed by exactly three file
/// names.
pub const USAGE: &'static str = "Invalid number of arguments: <input1> <input2> <output>";

/// The three file names of one comparison, as texts.
pub struct ConfigView {
    pub first_input: Seq<char>,
    pub second_input: Seq<char>,
    pub output: Seq<char>,
}

/// Program configuration: the two input file names and the prefix of the output file names.
pub struct Config<'a> {
    first_input: &'a String,
    second_input: &'a String,
    output: &'a String,
}

impl<'a> View for Config<'a> {
    type V = ConfigView;

    closed spec fn view(&self) -> ConfigView {
        ConfigView {
            first_input: self.first_input@,
            second_input: self.second_input@,
            output: self.output@,
        }
    }
}

impl<'a> Config<'a> {
    /// Initializes the program configuration from the command line: `args[0]` is the program's
    /// name, the next three are the first input, the second input and the output prefix. Any
    /// other number of arguments is refused.
    pub fn new(args: &'a [String]) -> (config: Result<Config<'a>, &'static str>)
        ensures
            args@.len() != 4 ==> (config matches Err(message) && message@ == USAGE@),
            args@.len() == 4 ==> (config matches Ok(c) && c@ == (ConfigView {
                first_input: args@[1]@,
                second_input: args@[2]@,
                output: args@[3]@,
            })),
    {
        if args.len() != 4 {
            return Err(USAGE);
        }
        Ok(Config { first_input: &args[1], second_input: &args[2], output: &args[3] })
    }

    /// The name of the first input file.
    pub fn first_input(&self) -> (name: &'a String)
        ensures
            name@ == self@.first_input,
    {
        self.first_input
    }

    /// The name of the second input file.
    pub fn second_input(&self) -> (name: &'a String)
        ensures
            name@ == self@.second_input,
    {
        self.second_input
    }

    /// The prefix of the names of the output files.
    pub fn output(&self) -> (prefix: &'a String)
        ensures
            prefix@ == self@.output,
    {
        self.output
    }
}

} // verus!
