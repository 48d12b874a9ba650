//! Grading a submitted program against a lesson's tests.
//!
//! The emulator runs outside the library. Grading is therefore a function of
//! the reports of the emulator runs made so far: it either reaches a verdict,
//! or names the next run it needs, which the caller performs before grading
//! again with one more report.
use vstd::prelude::*;
use vstd::string::*;
use crate::config::{
    save_action, str_equal, texts, translate_variable_name, translated, warm_up, AutotesterConfig,
    program_text,
};
use crate::encode::{
    lemma_encodes_record, program_file, program_file_bytes, variable_file,
    variable_file_bytes, variable_record,
};
use crate::lesson::{extension_of, Test, Variable};
use crate::record::{after_header, file_error, file_parses, payload_at, FormatError, TIEntry, TIFile};
use crate::token::{render, rendered, Token};

verus! {

/// The outcome of grading.
#[derive(Debug)]
pub enum ProgramTestResult {
    Pass,
    /// What failed.
    Fail(String),
}

/// The outcome of grading, as a value of the logic.
pub enum Verdict {
    Pass,
    Fail(Seq<char>),
}

impl ProgramTestResult {
    pub open spec fn verdict(&self) -> Verdict {
        match self {
            ProgramTestResult::Pass => Verdict::Pass,
            ProgramTestResult::Fail(s) => Verdict::Fail(s@),
        }
    }
}

/// Problems that stop grading altogether, as opposed to a failed test.
#[derive(Debug)]
pub enum TestError {
    /// Reading or writing a file, or running a process, failed.
    Io(String),
    /// No calculator image was found.
    NoRom,
    /// A calculator file could not be encoded or decoded.
    TIFileParsing(FormatError),
    /// The emulator exited unsuccessfully, with this code if it had one.
    CEmuCrashed(Option<i32>),
    /// A text test's pattern is not a valid regular expression.
    Regex,
}

/// The decimal digits of `n`.
pub open spec fn decimal(n: nat) -> Seq<char>
    decreases n,
{
    if n < 10 {
        seq![digit_char(n)]
    } else {
        decimal(n / 10).push(digit_char(n % 10))
    }
}

/// The character of a decimal digit.
pub open spec fn digit_char(d: nat) -> char {
    if d == 0 { '0' } else if d == 1 { '1' } else if d == 2 { '2' } else if d == 3 { '3' } else if d
        == 4 { '4' } else if d == 5 { '5' } else if d == 6 { '6' } else if d == 7 { '7' } else if d
        == 8 { '8' } else { '9' }
}

/// A signed integer in decimal.
pub open spec fn signed_decimal(n: int) -> Seq<char> {
    if n < 0 {
        seq!['-'] + decimal((-n) as nat)
    } else {
        decimal(n as nat)
    }
}

/// What each decoding or encoding problem is called.
pub open spec fn format_error_text(e: FormatError) -> Seq<char> {
    match e {
        FormatError::BadMagic => "the file signature is wrong"@,
        FormatError::BadFlashIndicator => "the flash indicator is neither 0x0b nor 0x0d"@,
        FormatError::Truncated => "the file ends too early"@,
        FormatError::TooLarge => "the data is too large for the length fields"@,
        FormatError::BadNumber => "a number cannot be represented"@,
        FormatError::Untokenizable => "some text is not made of calculator tokens"@,
    }
}

/// The message shown for an error that stopped grading.
pub open spec fn error_message(e: TestError) -> Seq<char> {
    match e {
        TestError::Io(s) => "Error occurred during tests: "@ + s@,
        TestError::NoRom => no_rom_message(),
        TestError::TIFileParsing(f) => "Error parsing 8x file during tests:\n"@ + format_error_text(f),
        TestError::CEmuCrashed(Some(c)) => "CEmu crashed during tests: exit status "@ + signed_decimal(
            c as int,
        ),
        TestError::CEmuCrashed(None) => "CEmu crashed during tests: terminated by a signal"@,
        TestError::Regex => "Error parsing test regex"@,
    }
}

/// The message for a missing calculator image.
pub open spec fn no_rom_message() -> Seq<char> {
    "Please ensure there is a working TI84+CE rom file in the current directory. This will be used for testing your submissions.\nThe rom file must end with the file extension \".rom\".\n\nThere are many ways to obtain a rom image if you do not have one. Perhaps the easiest is to use CEmu's rom dump wizard."@
}

fn digit_text(d: u32) -> (r: &'static str)
    requires
        d < 10,
    ensures
        r@ == seq![digit_char(d as nat)],
{
    proof {
        reveal_strlit("0");
        reveal_strlit("1");
        reveal_strlit("2");
        reveal_strlit("3");
        reveal_strlit("4");
        reveal_strlit("5");
        reveal_strlit("6");
        reveal_strlit("7");
        reveal_strlit("8");
        reveal_strlit("9");
    }
    if d == 0 {
        "0"
    } else if d == 1 {
        "1"
    } else if d == 2 {
        "2"
    } else if d == 3 {
        "3"
    } else if d == 4 {
        "4"
    } else if d == 5 {
        "5"
    } else if d == 6 {
        "6"
    } else if d == 7 {
        "7"
    } else if d == 8 {
        "8"
    } else {
        "9"
    }
}

/// Appends the decimal digits of `n`.
fn append_decimal(out: &mut String, n: u32)
    ensures
        final(out)@ == old(out)@ + decimal(n as nat),
    decreases n,
{
    if n < 10 {
        out.append(digit_text(n));
    } else {
        append_decimal(out, n / 10);
        out.append(digit_text(n % 10));
    }
}

impl TestError {
    /// The message shown for this error.
    pub fn message(&self) -> (r: String)
        ensures
            r@ == error_message(*self),
    {
        match self {
            TestError::Io(s) => {
                let mut m = "Error occurred during tests: ".to_owned();
                m.append(s.as_str());
                m
            },
            TestError::NoRom => "Please ensure there is a working TI84+CE rom file in the current directory. This will be used for testing your submissions.\nThe rom file must end with the file extension \".rom\".\n\nThere are many ways to obtain a rom image if you do not have one. Perhaps the easiest is to use CEmu's rom dump wizard.".to_owned(),
            TestError::TIFileParsing(f) => {
                let mut m = "Error parsing 8x file during tests:\n".to_owned();
                m.append(
                    match f {
                        FormatError::BadMagic => "the file signature is wrong",
                        FormatError::BadFlashIndicator => "the flash indicator is neither 0x0b nor 0x0d",
                        FormatError::Truncated => "the file ends too early",
                        FormatError::TooLarge => "the data is too large for the length fields",
                        FormatError::BadNumber => "a number cannot be represented",
                        FormatError::Untokenizable => "some text is not made of calculator tokens",
                    },
                );
                m
            },
            TestError::CEmuCrashed(Some(c)) => {
                let mut m = "CEmu crashed during tests: exit status ".to_owned();
                if *c < 0 {
                    m.append("-");
                    proof {
                        reveal_strlit("-");
                    }
                    let magnitude: u32 = if *c == i32::MIN {
                        2147483648u32
                    } else {
                        (-*c) as u32
                    };
                    append_decimal(&mut m, magnitude);
                } else {
                    append_decimal(&mut m, *c as u32);
                }
                m
            },
            TestError::CEmuCrashed(None) => "CEmu crashed during tests: terminated by a signal".to_owned(),
            TestError::Regex => "Error parsing test regex".to_owned(),
        }
    }
}

/// A grading outcome as a value of the logic.
pub open spec fn outcome(r: Result<ProgramTestResult, TestError>) -> Result<Verdict, TestError> {
    match r {
        Ok(p) => Ok(p.verdict()),
        Err(e) => Err(e),
    }
}

/// What came back from one emulator run.
#[derive(Debug)]
pub struct EmulatorReport {
    /// Whether the emulator exited successfully.
    pub success: bool,
    /// Its exit code, if it had one.
    pub exit_code: Option<i32>,
    /// For each expected output, in order, the bytes of the file the emulator
    /// saved for it, or `None` where there is no such file.
    pub outputs: Vec<Option<Vec<u8>>>,
}

/// The file saved for the `i`th expected output, if any.
pub open spec fn file_at(report: EmulatorReport, i: int) -> Option<Seq<u8>> {
    if 0 <= i < report.outputs@.len() {
        match report.outputs@[i] {
            Some(b) => Some(b@),
            None => None,
        }
    } else {
        None
    }
}

/// The message for a missing output file.
pub open spec fn missing_message(name: Seq<char>) -> Seq<char> {
    if name == "Ans"@ {
        "Cannot find Ans; perhaps Ans is the wrong type at the end of your program."@
    } else {
        "Cannot find variable "@ + name + "."@
    }
}

/// The message for an output with the wrong value.
pub open spec fn incorrect_message(name: Seq<char>) -> Seq<char> {
    "Incorrect value for variable "@ + name + "."@
}

/// The message when no test passed.
pub open spec fn failed_message() -> Seq<char> {
    "Tests failed."@
}

/// The outcome of checking one expected output against the file saved for
/// it, or `None` where they agree.
pub open spec fn check_output(v: Variable, file: Option<Seq<u8>>) -> Option<Result<Verdict, TestError>> {
    match file {
        None => Some(Ok(Verdict::Fail(missing_message(v.name@)))),
        Some(b) => if !file_parses(b) {
            Some(Err(TestError::TIFileParsing(file_error(b))))
        } else {
            match variable_record(v) {
                Err(e) => Some(Err(TestError::TIFileParsing(e))),
                Ok(p) => if p == payload_at(after_header(b)) {
                    None
                } else {
                    Some(Ok(Verdict::Fail(incorrect_message(v.name@))))
                },
            }
        },
    }
}

/// The outcome of checking the expected outputs from the `i`th on.
pub open spec fn outputs_result(report: EmulatorReport, outputs: Seq<Variable>, i: int) -> Result<
    Verdict,
    TestError,
>
    decreases outputs.len() - i,
{
    if i >= outputs.len() {
        Ok(Verdict::Pass)
    } else {
        match check_output(outputs[i], file_at(report, i)) {
            Some(r) => r,
            None => outputs_result(report, outputs, i + 1),
        }
    }
}

/// The outcome of one emulator run: a crash is an error whatever files exist;
/// otherwise the first output that is missing or differs fails the test.
pub open spec fn validation(report: EmulatorReport, outputs: Seq<Variable>) -> Result<
    Verdict,
    TestError,
> {
    if !report.success {
        Err(TestError::CEmuCrashed(report.exit_code))
    } else {
        outputs_result(report, outputs, 0)
    }
}

fn bytes_equal(a: &Vec<u8>, b: &Vec<u8>) -> (r: bool)
    ensures
        r == (a@ == b@),
{
    if a.len() != b.len() {
        return false;
    }
    let mut i: usize = 0;
    while i < a.len()
        invariant
            a@.len() == b@.len(),
            i <= a@.len(),
            forall|j: int| 0 <= j < i ==> a@[j] == b@[j],
        decreases a@.len() - i,
    {
        if a[i] != b[i] {
            return false;
        }
        i += 1;
    }
    assert(a@ =~= b@);
    true
}

fn missing_text(name: &String) -> (r: String)
    ensures
        r@ == missing_message(name@),
{
    if str_equal(name.as_str(), "Ans") {
        "Cannot find Ans; perhaps Ans is the wrong type at the end of your program.".to_owned()
    } else {
        let mut s = "Cannot find variable ".to_owned();
        s.append(name.as_str());
        s.append(".");
        s
    }
}

fn incorrect_text(name: &String) -> (r: String)
    ensures
        r@ == incorrect_message(name@),
{
    let mut s = "Incorrect value for variable ".to_owned();
    s.append(name.as_str());
    s.append(".");
    s
}

/// Judges one emulator run against the expected outputs: an unsuccessful exit
/// is `CEmuCrashed`; then each output in order must have a file whose payload
/// equals the payload of the expected value.
pub fn validate_cemu_test_state(report: &EmulatorReport, outputs: &Vec<Variable>) -> (r: Result<
    ProgramTestResult,
    TestError,
>)
    ensures
        outcome(r) == validation(*report, outputs@),
        !report.success ==> r == Err::<ProgramTestResult, TestError>(
            TestError::CEmuCrashed(report.exit_code),
        ),
{
    if !report.success {
        return Err(TestError::CEmuCrashed(report.exit_code));
    }
    let mut i: usize = 0;
    while i < outputs.len()
        invariant
            i <= outputs@.len(),
            report.success,
            validation(*report, outputs@) == outputs_result(*report, outputs@, i as int),
        decreases outputs@.len() - i,
    {
        let v = &outputs[i];
        if i >= report.outputs.len() {
            return Ok(ProgramTestResult::Fail(missing_text(&v.name)));
        }
        match &report.outputs[i] {
            None => {
                return Ok(ProgramTestResult::Fail(missing_text(&v.name)));
            },
            Some(bytes) => {
                let actual = match TIFile::from_bytes(bytes.as_slice()) {
                    Err(e) => {
                        return Err(TestError::TIFileParsing(e));
                    },
                    Ok(f) => f,
                };
                let expected = TIEntry::from_variable(v);
                proof {
                    lemma_encodes_record(*v, expected);
                }
                match expected {
                    Err(e) => {
                        return Err(TestError::TIFileParsing(e));
                    },
                    Ok(e) => {
                        if !bytes_equal(&e.data, &actual.entry.data) {
                            return Ok(ProgramTestResult::Fail(incorrect_text(&v.name)));
                        }
                    },
                }
            },
        }
        i += 1;
    }
    Ok(ProgramTestResult::Pass)
}

/// A missing output file fails the run, never aborts it: for "Ans" with a
/// hint that its type may be wrong, for any other variable with its name.
pub proof fn lemma_missing_output(v: Variable)
    ensures
        check_output(v, None) == Some(
            Ok::<Verdict, TestError>(Verdict::Fail(missing_message(v.name@))),
        ),
        v.name@ == "Ans"@ ==> missing_message(v.name@)
            == "Cannot find Ans; perhaps Ans is the wrong type at the end of your program."@,
        v.name@ != "Ans"@ ==> missing_message(v.name@) == "Cannot find variable "@ + v.name@
            + "."@,
{
}

/// Whether the regular expression `pattern` matches `text`, or `None` where
/// the pattern is not valid or matching gives up.
pub uninterp spec fn regex_outcome(pattern: Seq<char>, text: Seq<char>) -> Option<bool>;

/// Relies on fancy_regex's `Regex::new` and `Regex::is_match`: whether the
/// compiled pattern matches somewhere in the text, `None` where either call
/// returns an error. Both depend on the pattern and the text alone.
#[verifier::external_body]
fn regex_is_match(pattern: &str, text: &str) -> (r: Option<bool>)
    ensures
        r == regex_outcome(pattern@, text@),
{
    match fancy_regex::Regex::new(pattern) {
        Ok(re) => re.is_match(text).ok(),
        Err(_) => None,
    }
}

/// The outcome of a text test: the pattern, anchored at both ends, must match
/// the program's text.
pub open spec fn text_match(regex: Seq<char>, text: Seq<char>) -> Result<Verdict, TestError> {
    match regex_outcome("^"@ + regex + "$"@, text) {
        Some(true) => Ok(Verdict::Pass),
        Some(false) => Ok(Verdict::Fail(failed_message())),
        None => Err(TestError::Regex),
    }
}

/// Judges a program's source text against a text test's pattern.
pub fn full_text_match(regex: &str, text: &str) -> (r: Result<ProgramTestResult, TestError>)
    ensures
        outcome(r) == text_match(regex@, text@),
{
    let mut anchored = "^".to_owned();
    anchored.append(regex);
    anchored.append("$");
    match regex_is_match(anchored.as_str(), text) {
        Some(true) => Ok(ProgramTestResult::Pass),
        Some(false) => Ok(ProgramTestResult::Fail("Tests failed.".to_owned())),
        None => Err(TestError::Regex),
    }
}

/// A file to place beside the emulator before a run.
#[derive(Debug)]
pub struct InputFile {
    pub name: String,
    pub bytes: Vec<u8>,
}

/// Everything one emulator run needs: the files to load, in order (the
/// program last), the variables to save afterwards, and the names of the
/// files they will be saved to.
#[derive(Debug)]
pub struct CaseRequest {
    pub files: Vec<InputFile>,
    pub exports: Vec<String>,
    pub expected_files: Vec<String>,
}

impl CaseRequest {
    /// The descriptor for this run: boot `rom`, load each file from `folder`
    /// in order, and save each export after the warm-up actions.
    pub fn config(&self, rom: String, folder: &str) -> (r: AutotesterConfig)
        ensures
            r.rom@ == rom@,
            r.target.name@ == program_text(),
            !r.target.is_asm,
            texts(r.sequence@) == warm_up() + texts(self.exports@).map_values(
                |n: Seq<char>| save_action(n),
            ),
            texts(r.transfer_files@) == files_view(self.files@).map_values(
                |f: (Seq<char>, Seq<u8>)| folder@ + "/"@ + f.0,
            ),
    {
        let mut c = AutotesterConfig::with_rom(rom);
        let mut i: usize = 0;
        while i < self.files.len()
            invariant
                i <= self.files@.len(),
                c.rom@ == rom@,
                c.target.name@ == program_text(),
                !c.target.is_asm,
                texts(c.sequence@) == warm_up(),
                texts(c.transfer_files@) == files_view(self.files@).subrange(0, i as int).map_values(
                    |f: (Seq<char>, Seq<u8>)| folder@ + "/"@ + f.0,
                ),
            decreases self.files@.len() - i,
        {
            let mut path = folder.to_owned();
            path.append("/");
            path.append(self.files[i].name.as_str());
            let ghost before = texts(c.transfer_files@);
            c.add_import(path);
            assert(texts(c.transfer_files@) =~= files_view(self.files@).subrange(0, i + 1).map_values(
                |f: (Seq<char>, Seq<u8>)| folder@ + "/"@ + f.0,
            ));
            i += 1;
        }
        assert(files_view(self.files@).subrange(0, self.files@.len() as int) =~= files_view(
            self.files@,
        ));
        let mut j: usize = 0;
        while j < self.exports.len()
            invariant
                j <= self.exports@.len(),
                c.rom@ == rom@,
                c.target.name@ == program_text(),
                !c.target.is_asm,
                texts(c.sequence@) == warm_up() + texts(self.exports@).subrange(0, j as int).map_values(
                    |n: Seq<char>| save_action(n),
                ),
                texts(c.transfer_files@) == files_view(self.files@).map_values(
                    |f: (Seq<char>, Seq<u8>)| folder@ + "/"@ + f.0,
                ),
            decreases self.exports@.len() - j,
        {
            c.add_export(self.exports[j].as_str());
            assert(texts(c.sequence@) =~= warm_up() + texts(self.exports@).subrange(0, j + 1).map_values(
                |n: Seq<char>| save_action(n),
            ));
            j += 1;
        }
        assert(texts(self.exports@).subrange(0, self.exports@.len() as int) =~= texts(
            self.exports@,
        ));
        c
    }
}

/// The name of the file that holds an input variable.
pub open spec fn input_file_name(v: Variable) -> Seq<char> {
    v.name@ + "."@ + extension_of(v.value)
}

/// The name of the file the emulator saves an output variable to.
pub open spec fn expected_file_name(v: Variable) -> Seq<char> {
    translated(v.name@) + "."@ + extension_of(v.value)
}

/// The input files, name and bytes, or why one cannot be encoded.
pub open spec fn inputs_files(inputs: Seq<Variable>) -> Result<Seq<(Seq<char>, Seq<u8>)>, FormatError>
    decreases inputs.len(),
{
    if inputs.len() == 0 {
        Ok(Seq::empty())
    } else {
        match inputs_files(inputs.drop_last()) {
            Err(e) => Err(e),
            Ok(fs) => match variable_file(inputs.last()) {
                Err(e) => Err(e),
                Ok(b) => Ok(fs.push((input_file_name(inputs.last()), b))),
            },
        }
    }
}

/// All the files of a run: the inputs, then the program.
pub open spec fn case_files(program: Seq<Token>, inputs: Seq<Variable>) -> Result<
    Seq<(Seq<char>, Seq<u8>)>,
    FormatError,
> {
    match inputs_files(inputs) {
        Err(e) => Err(e),
        Ok(fs) => match program_file(program) {
            Err(e) => Err(e),
            Ok(b) => Ok(fs.push(("TESTPROG.8xp"@, b))),
        },
    }
}

/// The name and bytes of each file of a request.
pub open spec fn files_view(fs: Seq<InputFile>) -> Seq<(Seq<char>, Seq<u8>)> {
    fs.map_values(|f: InputFile| (f.name@, f.bytes@))
}

/// `req` is the request for running `program` with `inputs` loaded and
/// `outputs` expected.
pub open spec fn request_for(
    req: CaseRequest,
    program: Seq<Token>,
    inputs: Seq<Variable>,
    outputs: Seq<Variable>,
) -> bool {
    &&& case_files(program, inputs) == Ok::<Seq<(Seq<char>, Seq<u8>)>, FormatError>(
        files_view(req.files@),
    )
    &&& texts(req.exports@) == outputs.map_values(|v: Variable| v.name@)
    &&& texts(req.expected_files@) == outputs.map_values(|v: Variable| expected_file_name(v))
}

fn file_name(stem: &str, ext: &str) -> (r: String)
    ensures
        r@ == stem@ + "."@ + ext@,
{
    let mut s = stem.to_owned();
    s.append(".");
    s.append(ext);
    s
}

fn output_names(outputs: &Vec<Variable>) -> (r: Vec<String>)
    ensures
        texts(r@) == outputs@.map_values(|v: Variable| v.name@),
{
    let mut r: Vec<String> = Vec::new();
    let mut j: usize = 0;
    while j < outputs.len()
        invariant
            j <= outputs@.len(),
            r@.len() == j,
            forall|k: int| 0 <= k < j ==> #[trigger] r@[k]@ == outputs@[k].name@,
        decreases outputs@.len() - j,
    {
        r.push(outputs[j].name.as_str().to_owned());
        j += 1;
    }
    assert(texts(r@) =~= outputs@.map_values(|v: Variable| v.name@));
    r
}

fn expected_file_names(outputs: &Vec<Variable>) -> (r: Vec<String>)
    ensures
        texts(r@) == outputs@.map_values(|v: Variable| expected_file_name(v)),
{
    let mut r: Vec<String> = Vec::new();
    let mut j: usize = 0;
    while j < outputs.len()
        invariant
            j <= outputs@.len(),
            r@.len() == j,
            forall|k: int| 0 <= k < j ==> #[trigger] r@[k]@ == expected_file_name(outputs@[k]),
        decreases outputs@.len() - j,
    {
        let v = &outputs[j];
        r.push(file_name(translate_variable_name(v.name.as_str()), v.value.file_extension()));
        j += 1;
    }
    assert(texts(r@) =~= outputs@.map_values(|v: Variable| expected_file_name(v)));
    r
}

fn input_files(inputs: &Vec<Variable>) -> (r: Result<Vec<InputFile>, FormatError>)
    ensures
        match inputs_files(inputs@) {
            Err(e) => r == Err::<Vec<InputFile>, FormatError>(e),
            Ok(fs) => r is Ok && files_view(r->Ok_0@) == fs,
        },
{
    let mut files: Vec<InputFile> = Vec::new();
    let mut i: usize = 0;
    assert(files_view(files@) =~= Seq::<(Seq<char>, Seq<u8>)>::empty());
    assert(inputs@.subrange(0, 0).len() == 0);
    while i < inputs.len()
        invariant
            i <= inputs@.len(),
            inputs_files(inputs@.subrange(0, i as int)) == Ok::<
                Seq<(Seq<char>, Seq<u8>)>,
                FormatError,
            >(files_view(files@)),
        decreases inputs@.len() - i,
    {
        let v = &inputs[i];
        assert(inputs@.subrange(0, i + 1).drop_last() == inputs@.subrange(0, i as int));
        match variable_file_bytes(v) {
            Err(e) => {
                proof {
                    lemma_inputs_prefix_err(inputs@, i as int + 1);
                }
                return Err(e);
            },
            Ok(bytes) => {
                let name = file_name(v.name.as_str(), v.value.file_extension());
                let ghost before = files_view(files@);
                files.push(InputFile { name, bytes });
                assert(files_view(files@) =~= before.push((input_file_name(*v), bytes@)));
            },
        }
        i += 1;
    }
    assert(inputs@.subrange(0, inputs@.len() as int) == inputs@);
    Ok(files)
}

/// Builds the request for one emulator run.
pub fn prepare_case(program: &Vec<Token>, inputs: &Vec<Variable>, outputs: &Vec<Variable>) -> (r:
    Result<CaseRequest, FormatError>)
    ensures
        match case_files(program@, inputs@) {
            Err(e) => r == Err::<CaseRequest, FormatError>(e),
            Ok(_) => r is Ok && request_for(r->Ok_0, program@, inputs@, outputs@),
        },
{
    let mut files = match input_files(inputs) {
        Err(e) => {
            return Err(e);
        },
        Ok(fs) => fs,
    };
    match program_file_bytes(program) {
        Err(e) => {
            return Err(e);
        },
        Ok(bytes) => {
            proof {
                reveal_strlit("TESTPROG.8xp");
            }
            let ghost before = files_view(files@);
            files.push(InputFile { name: "TESTPROG.8xp".to_owned(), bytes });
            assert(files_view(files@) =~= before.push(("TESTPROG.8xp"@, bytes@)));
        },
    }
    let exports = output_names(outputs);
    let expected_files = expected_file_names(outputs);
    Ok(CaseRequest { files, exports, expected_files })
}

/// Once some input cannot be encoded, the whole list cannot, with the same
/// error.
proof fn lemma_inputs_prefix_err(inputs: Seq<Variable>, k: int)
    requires
        0 <= k <= inputs.len(),
        inputs_files(inputs.subrange(0, k)) is Err,
    ensures
        inputs_files(inputs) == inputs_files(inputs.subrange(0, k)),
    decreases inputs.len() - k,
{
    if k < inputs.len() {
        assert(inputs.subrange(0, k + 1).drop_last() == inputs.subrange(0, k));
        lemma_inputs_prefix_err(inputs, k + 1);
    } else {
        assert(inputs.subrange(0, k) == inputs);
    }
}

/// Where grading stands, as a value of the logic: an outcome, or the inputs
/// and outputs of the emulator run it needs next.
pub enum Progress {
    Done(Result<Verdict, TestError>),
    Need(Seq<Variable>, Seq<Variable>),
}

/// Evaluates one test with the emulator reports from the `k`th on still
/// unused; returns where it stands and the first report left unused.
pub open spec fn eval_test(t: Test, program: Seq<Token>, reports: Seq<EmulatorReport>, k: nat) -> (
    Progress,
    nat,
)
    decreases t,
{
    match t {
        Test::CEmu { input, output } => if k < reports.len() {
            (Progress::Done(validation(reports[k as int], output@)), k + 1)
        } else {
            match case_files(program, input@) {
                Err(e) => (Progress::Done(Err(TestError::TIFileParsing(e))), k),
                Ok(_) => (Progress::Need(input@, output@), k),
            }
        },
        Test::FulltextMatch { regex } => (Progress::Done(text_match(regex@, rendered(program))), k),
        Test::Group(ts) => eval_group(ts@, 0, program, reports, k),
    }
}

/// Evaluates the tests of a group from the `i`th on: the first that does not
/// pass decides; when all pass, the group passes.
pub open spec fn eval_group(
    ts: Seq<Test>,
    i: int,
    program: Seq<Token>,
    reports: Seq<EmulatorReport>,
    k: nat,
) -> (Progress, nat)
    decreases ts, ts.len() - i,
{
    if i < 0 || i >= ts.len() {
        (Progress::Done(Ok(Verdict::Pass)), k)
    } else {
        let (p, k1) = eval_test(ts[i], program, reports, k);
        match p {
            Progress::Done(Ok(Verdict::Pass)) => eval_group(ts, i + 1, program, reports, k1),
            _ => (p, k1),
        }
    }
}

/// Evaluates the top-level tests from the `i`th on: the first that passes
/// decides; when none does, the last failure stands, or `last` when there
/// are no more tests.
pub open spec fn eval_top(
    ts: Seq<Test>,
    i: int,
    program: Seq<Token>,
    reports: Seq<EmulatorReport>,
    k: nat,
    last: Verdict,
) -> Progress
    decreases ts.len() - i,
{
    if i < 0 || i >= ts.len() {
        Progress::Done(Ok(last))
    } else {
        let (p, k1) = eval_test(ts[i], program, reports, k);
        match p {
            Progress::Done(Ok(Verdict::Fail(reason))) => eval_top(
                ts,
                i + 1,
                program,
                reports,
                k1,
                Verdict::Fail(reason),
            ),
            _ => p,
        }
    }
}

/// A group that reaches a failing member fails with that member's outcome:
/// the members before it passed, and the ones after it are not evaluated.
pub proof fn lemma_group_first_failure(
    ts: Seq<Test>,
    i: int,
    program: Seq<Token>,
    reports: Seq<EmulatorReport>,
    k: nat,
    reason: Seq<char>,
)
    requires
        0 <= i < ts.len(),
        eval_test(ts[i], program, reports, k).0 == Progress::Done(
            Ok::<Verdict, TestError>(Verdict::Fail(reason)),
        ),
    ensures
        eval_group(ts, i, program, reports, k).0 == Progress::Done(
            Ok::<Verdict, TestError>(Verdict::Fail(reason)),
        ),
{
}

/// At the top level the first test that passes decides: grading passes
/// whatever the later tests would give.
pub proof fn lemma_top_first_pass(
    ts: Seq<Test>,
    i: int,
    program: Seq<Token>,
    reports: Seq<EmulatorReport>,
    k: nat,
    last: Verdict,
)
    requires
        0 <= i < ts.len(),
        eval_test(ts[i], program, reports, k).0 == Progress::Done(
            Ok::<Verdict, TestError>(Verdict::Pass),
        ),
    ensures
        eval_top(ts, i, program, reports, k, last) == Progress::Done(
            Ok::<Verdict, TestError>(Verdict::Pass),
        ),
{
}

/// What grading asks for next.
#[derive(Debug)]
pub enum GradeStep {
    /// Grading is over.
    Finished(Result<ProgramTestResult, TestError>),
    /// Grading needs this emulator run; grade again with its report added.
    Emulate(CaseRequest),
}

/// `s` is the step that `p` describes.
pub open spec fn step_is(s: GradeStep, p: Progress, program: Seq<Token>) -> bool {
    match p {
        Progress::Done(x) => s is Finished && outcome(s->Finished_0) == x,
        Progress::Need(ins, outs) => s is Emulate && request_for(s->Emulate_0, program, ins, outs),
    }
}

fn run_test(t: &Test, program: &Vec<Token>, reports: &Vec<EmulatorReport>, k: usize) -> (r: (
    GradeStep,
    usize,
))
    requires
        k <= reports@.len(),
    ensures
        step_is(r.0, eval_test(*t, program@, reports@, k as nat).0, program@),
        r.1 as nat == eval_test(*t, program@, reports@, k as nat).1,
        r.1 <= reports@.len(),
    decreases t,
{
    match t {
        Test::CEmu { input, output } => {
            if k < reports.len() {
                (GradeStep::Finished(validate_cemu_test_state(&reports[k], output)), k + 1)
            } else {
                match prepare_case(program, input, output) {
                    Err(e) => (GradeStep::Finished(Err(TestError::TIFileParsing(e))), k),
                    Ok(req) => (GradeStep::Emulate(req), k),
                }
            }
        },
        Test::FulltextMatch { regex } => {
            let text = render(program);
            (GradeStep::Finished(full_text_match(regex.as_str(), text.as_str())), k)
        },
        Test::Group(ts) => {
            let mut i: usize = 0;
            let mut kk: usize = k;
            while i < ts.len()
                invariant
                    i <= ts@.len(),
                    kk <= reports@.len(),
                    t is Group && t->Group_0 == *ts,
                    eval_test(*t, program@, reports@, k as nat) == eval_group(
                        ts@,
                        i as int,
                        program@,
                        reports@,
                        kk as nat,
                    ),
                decreases ts@.len() - i,
            {
                proof {
                    assert(decreases_to!(*t => t->Group_0));
                    vstd::std_specs::vec::axiom_vec_index_decreases(t->Group_0, i as int);
                    assert(decreases_to!(*t => ts[i as int]));
                }
                let (step, k1) = run_test(&ts[i], program, reports, kk);
                match step {
                    GradeStep::Finished(Ok(ProgramTestResult::Pass)) => {},
                    _ => {
                        return (step, k1);
                    },
                }
                kk = k1;
                i += 1;
            }
            (GradeStep::Finished(Ok(ProgramTestResult::Pass)), kk)
        },
    }
}

/// Grades a program against a lesson's top-level tests, given the reports of
/// the emulator runs asked for so far, in order. The program passes when one
/// of the tests passes (they are tried in order); a test that is a group
/// passes when all its tests do. With no passing test the last failure is the
/// outcome, and "Tests failed." when there are no tests.
pub fn run_tests(program: &Vec<Token>, tests: &Vec<Test>, reports: &Vec<EmulatorReport>) -> (r:
    GradeStep)
    ensures
        step_is(r, eval_top(tests@, 0, program@, reports@, 0, Verdict::Fail(failed_message())), program@),
{
    let mut last = ProgramTestResult::Fail("Tests failed.".to_owned());
    let mut i: usize = 0;
    let mut k: usize = 0;
    while i < tests.len()
        invariant
            i <= tests@.len(),
            k <= reports@.len(),
            eval_top(tests@, 0, program@, reports@, 0, Verdict::Fail(failed_message())) == eval_top(
                tests@,
                i as int,
                program@,
                reports@,
                k as nat,
                last.verdict(),
            ),
            last.verdict() is Fail,
        decreases tests@.len() - i,
    {
        let (step, k1) = run_test(&tests[i], program, reports, k);
        match step {
            GradeStep::Finished(Ok(ProgramTestResult::Fail(reason))) => {
                last = ProgramTestResult::Fail(reason);
            },
            _ => {
                return step;
            },
        }
        k = k1;
        i += 1;
    }
    GradeStep::Finished(Ok(last))
}

} // verus!
