//! The automation descriptor handed to the emulator, and the names the
//! emulator gives to variables.
use vstd::prelude::*;
use vstd::string::*;

verus! {

/// The emulator's name for a variable: the six list names take a subscript
/// digit, "theta" becomes the Greek letter, and every other name stays.
pub open spec fn translated(name: Seq<char>) -> Seq<char> {
    if name == "L1"@ {
        "L\u{2081}"@
    } else if name == "L2"@ {
        "L\u{2082}"@
    } else if name == "L3"@ {
        "L\u{2083}"@
    } else if name == "L4"@ {
        "L\u{2084}"@
    } else if name == "L5"@ {
        "L\u{2085}"@
    } else if name == "L6"@ {
        "L\u{2086}"@
    } else if name == "theta"@ {
        "\u{03B8}"@
    } else {
        name
    }
}

/// Whether two strings hold the same characters.
pub fn str_equal(a: &str, b: &str) -> (r: bool)
    ensures
        r == (a@ == b@),
{
    let n = a.unicode_len();
    if n != b.unicode_len() {
        return false;
    }
    let mut i: usize = 0;
    while i < n
        invariant
            n == a@.len() == b@.len(),
            i <= n,
            forall|j: int| 0 <= j < i ==> a@[j] == b@[j],
        decreases n - i,
    {
        if a.get_char(i) != b.get_char(i) {
            return false;
        }
        i += 1;
    }
    assert(a@ =~= b@);
    true
}

/// The emulator's name for a variable.
pub fn translate_variable_name<'a>(var_name: &'a str) -> (r: &'a str)
    ensures
        r@ == translated(var_name@),
{
    if str_equal(var_name, "L1") {
        "L\u{2081}"
    } else if str_equal(var_name, "L2") {
        "L\u{2082}"
    } else if str_equal(var_name, "L3") {
        "L\u{2083}"
    } else if str_equal(var_name, "L4") {
        "L\u{2084}"
    } else if str_equal(var_name, "L5") {
        "L\u{2085}"
    } else if str_equal(var_name, "L6") {
        "L\u{2086}"
    } else if str_equal(var_name, "theta") {
        "\u{03B8}"
    } else {
        var_name
    }
}

/// The program the emulator launches.
#[derive(Debug)]
pub struct Program {
    pub name: String,
    pub is_asm: bool,
}

/// What the emulator is told to do: which image to boot, which program to
/// launch, which actions to take, and which files to load first.
#[derive(Debug)]
pub struct AutotesterConfig {
    pub rom: String,
    pub target: Program,
    pub sequence: Vec<String>,
    pub transfer_files: Vec<String>,
}

/// The characters of each string of a list.
pub open spec fn texts(v: Seq<String>) -> Seq<Seq<char>> {
    v.map_values(|s: String| s@)
}

/// The actions that start every run: launch, wait two seconds, press "on".
pub open spec fn warm_up() -> Seq<Seq<char>> {
    seq!["action|launch"@, "delay|2000"@, "key|on"@]
}

/// The action that saves a variable.
pub open spec fn save_action(name: Seq<char>) -> Seq<char> {
    "saveVar|"@ + translated(name)
}

/// The name of the program that is launched.
pub open spec fn program_text() -> Seq<char> {
    "TESTPROG"@
}

impl AutotesterConfig {
    /// A descriptor for the given image that launches the test program after
    /// the warm-up actions, with nothing to load yet.
    pub fn with_rom(rom_path: String) -> (r: AutotesterConfig)
        ensures
            r.rom@ == rom_path@,
            r.target.name@ == program_text(),
            !r.target.is_asm,
            texts(r.sequence@) == warm_up(),
            r.transfer_files@.len() == 0,
    {
        let mut sequence: Vec<String> = Vec::new();
        sequence.push("action|launch".to_owned());
        sequence.push("delay|2000".to_owned());
        sequence.push("key|on".to_owned());
        assert(texts(sequence@) =~= warm_up());
        AutotesterConfig {
            rom: rom_path,
            target: Program { name: "TESTPROG".to_owned(), is_asm: false },
            sequence,
            transfer_files: Vec::new(),
        }
    }

    /// Adds a file to load before the run.
    pub fn add_import(&mut self, path: String)
        ensures
            texts(final(self).transfer_files@) == texts(old(self).transfer_files@).push(path@),
            final(self).sequence == old(self).sequence,
            final(self).rom == old(self).rom,
            final(self).target == old(self).target,
    {
        self.transfer_files.push(path);
        assert(texts(self.transfer_files@) =~= texts(old(self).transfer_files@).push(path@));
    }

    /// Adds an action that saves the variable of the given name, under the
    /// emulator's name for it.
    pub fn add_export(&mut self, var_name: &str)
        ensures
            texts(final(self).sequence@) == texts(old(self).sequence@).push(save_action(var_name@)),
            final(self).transfer_files == old(self).transfer_files,
            final(self).rom == old(self).rom,
            final(self).target == old(self).target,
    {
        let mut action = "saveVar|".to_owned();
        action.append(translate_variable_name(var_name));
        self.sequence.push(action);
        assert(texts(self.sequence@) =~= texts(old(self).sequence@).push(save_action(var_name@)));
    }
}

} // verus!
