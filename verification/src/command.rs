use std::str::FromStr;
use vstd::prelude::*;

verus! {

/// The words of a line: what `str::split_whitespace` yields for it, in order.
pub uninterp spec fn words_of(line: Seq<char>) -> Seq<Seq<char>>;

/// The integer that a word spells: what `i32::from_str` makes of it, `None`
/// where it refuses the word.
pub uninterp spec fn integer_of(word: Seq<char>) -> Option<i32>;

/// Calls `str::split_whitespace` and copies each word it yields into a
/// `String`. Claimed: the result holds exactly those words, in that order.
#[verifier::external_body]
fn split_words(line: &str) -> (words: Vec<String>)
    ensures
        texts(words@) == words_of(line@),
{
    let mut words: Vec<String> = Vec::new();
    for word in line.split_whitespace() {
        words.push(word.to_owned());
    }
    words
}

/// Calls `i32::from_str`. Claimed: the result depends on the characters of
/// `word` alone; an error becomes `None`.
#[verifier::external_body]
fn parse_integer(word: &str) -> (value: Option<i32>)
    ensures
        value == integer_of(word@),
{
    match i32::from_str(word) {
        Ok(number) => Some(number),
        Err(_) => None,
    }
}

/// The character sequences of a list of strings.
pub open spec fn texts(words: Seq<String>) -> Seq<Seq<char>> {
    words.map_values(|w: String| w@)
}

/// One argument of `add`.
#[derive(Debug, PartialEq, Eq)]
pub enum Argument {
    /// A word that spells an integer.
    Number(i32),
    /// A word that spells none, kept as it was written.
    Invalid(String),
}

/// One line of input, read as a command.
#[derive(Debug, PartialEq, Eq)]
pub enum Command {
    /// `add <int> ...`: the arguments, one for each word after the name.
    Add(Vec<Argument>),
    /// `identity <int>`: the integer, or `None` where it is missing or no
    /// integer.
    Identity(Option<i32>),
    /// `list`
    List,
    /// `help`
    Help,
    /// `create`
    Create,
    /// `exit`
    Exit,
    /// Anything else, the empty line too.
    Unknown,
}

impl Argument {
    /// Whether `self` is the argument that `word` gives once it was parsed
    /// to `parsed`.
    pub open spec fn classifies(self, word: Seq<char>, parsed: Option<i32>) -> bool {
        match parsed {
            Some(number) => self == Argument::Number(number),
            None => self matches Argument::Invalid(text) && text@ == word,
        }
    }

    /// Whether `self` is the reading of `word`.
    pub open spec fn reads(self, word: Seq<char>) -> bool {
        self.classifies(word, integer_of(word))
    }

    /// The argument for `word`, given what parsing it as an integer gave:
    /// the integer, or else the word itself as an invalid one.
    pub fn classify(word: &String, parsed: Option<i32>) -> (argument: Argument)
        ensures
            argument.classifies(word@, parsed),
    {
        match parsed {
            Some(number) => Argument::Number(number),
            None => Argument::Invalid(word.clone()),
        }
    }

    /// Reads one word after `add`.
    pub fn read(word: &String) -> (argument: Argument)
        ensures
            argument.reads(word@),
    {
        Argument::classify(word, parse_integer(word.as_str()))
    }
}

/// The name of the command in `words`: the first word, or the empty text.
pub open spec fn name_of(words: Seq<Seq<char>>) -> Seq<char> {
    if words.len() > 0 {
        words[0]
    } else {
        Seq::empty()
    }
}

/// The argument of `identity` in `words`: the integer that the second word
/// spells, if there is a second word and it spells one. Further words are
/// ignored.
pub open spec fn identity_argument(words: Seq<Seq<char>>) -> Option<i32> {
    if words.len() > 1 {
        integer_of(words[1])
    } else {
        None
    }
}

impl Command {
    /// Whether `self` is the reading of a line with the words `words`. The
    /// first word names the command; only `add` and `identity` look at the
    /// words after it.
    pub open spec fn reads(self, words: Seq<Seq<char>>) -> bool {
        let name = name_of(words);
        if name == "add"@ {
            &&& self matches Command::Add(arguments)
            &&& arguments@.len() == words.len() - 1
            &&& forall|i: int|
                0 <= i < arguments@.len() ==> (#[trigger] arguments@[i]).reads(words[i + 1])
        } else if name == "identity"@ {
            self == Command::Identity(identity_argument(words))
        } else if name == "list"@ {
            self == Command::List
        } else if name == "help"@ {
            self == Command::Help
        } else if name == "create"@ {
            self == Command::Create
        } else if name == "exit"@ {
            self == Command::Exit
        } else {
            self == Command::Unknown
        }
    }
}

/// Whether `word` is spelled `name`.
fn is_named(word: &String, name: &str) -> (r: bool)
    ensures
        r == (word@ == name@),
{
    let owned: String = name.to_owned();
    word.eq(&owned)
}

/// Reads the words of a line as a command.
pub fn interpret(words: &Vec<String>) -> (command: Command)
    ensures
        command.reads(texts(words@)),
{
    let ghost all = texts(words@);
    if words.len() == 0 {
        proof {
            assert(name_of(all) =~= Seq::<char>::empty());
            reveal_strlit("add");
            reveal_strlit("identity");
            reveal_strlit("list");
            reveal_strlit("help");
            reveal_strlit("create");
            reveal_strlit("exit");
            assert("add"@.len() == 3 && "identity"@.len() == 8 && "list"@.len() == 4);
            assert("help"@.len() == 4 && "create"@.len() == 6 && "exit"@.len() == 4);
        }
        return Command::Unknown;
    }
    let name: &String = &words[0];
    assert(name@ == name_of(all));
    if is_named(name, "add") {
        let mut arguments: Vec<Argument> = Vec::new();
        let mut i: usize = 1;
        while i < words.len()
            invariant
                1 <= i <= words.len(),
                all == texts(words@),
                arguments@.len() == i - 1,
                forall|k: int|
                    0 <= k < arguments@.len() ==> (#[trigger] arguments@[k]).reads(all[k + 1]),
            decreases words.len() - i,
        {
            let argument = Argument::read(&words[i]);
            arguments.push(argument);
            i += 1;
        }
        Command::Add(arguments)
    } else if is_named(name, "identity") {
        if words.len() > 1 {
            Command::Identity(parse_integer(words[1].as_str()))
        } else {
            Command::Identity(None)
        }
    } else if is_named(name, "list") {
        Command::List
    } else if is_named(name, "help") {
        Command::Help
    } else if is_named(name, "create") {
        Command::Create
    } else if is_named(name, "exit") {
        Command::Exit
    } else {
        Command::Unknown
    }
}

/// Reads a line as a command: splits it into words at white space and
/// interprets them.
pub fn parse_command(line: &str) -> (command: Command)
    ensures
        command.reads(words_of(line@)),
{
    let words = split_words(line);
    interpret(&words)
}

} // verus!
