//! JUnit reports out of the events of `go test -json`.

use std::time::Duration;

use quick_junit::{NonSuccessKind, Report, TestCase, TestCaseStatus, TestSuite};
use vstd::prelude::*;

verus! {

/// The outcome of a test case, in the `quick-junit` crate.
#[verifier::external_type_specification]
#[verifier::external_body]
pub struct ExTestCaseStatus(quick_junit::TestCaseStatus);

/// A test case of the `quick-junit` crate.
#[verifier::external_type_specification]
#[verifier::external_body]
pub struct ExTestCase(quick_junit::TestCase);

/// A test suite of the `quick-junit` crate.
#[verifier::external_type_specification]
#[verifier::external_body]
pub struct ExTestSuite(quick_junit::TestSuite);

/// A report of the `quick-junit` crate.
#[verifier::external_type_specification]
#[verifier::external_body]
pub struct ExReport(quick_junit::Report);

/// How a test went. A test that could not be run has no outcome of its own: no report
/// is made with one.
#[derive(Debug, Clone, Copy, PartialEq, Eq, Structural)]
pub enum Outcome {
    Success,
    Failure,
    Skipped,
}

/// What an outcome tells.
#[verifier::ext_equal]
pub struct StatusContent {
    pub outcome: Outcome,
    pub description: Option<Seq<char>>,
}

/// What a test case tells. Its time is in seconds and nanoseconds.
#[verifier::ext_equal]
pub struct CaseContent {
    pub name: Seq<char>,
    pub status: StatusContent,
    pub time: Option<(u64, u32)>,
    pub system_out: Option<Seq<char>>,
}

/// How many tests there are, and how many of them failed or were skipped.
#[verifier::ext_equal]
pub struct Counts {
    pub tests: nat,
    pub failures: nat,
    pub skipped: nat,
}

/// What a test suite tells.
#[verifier::ext_equal]
pub struct SuiteContent {
    pub name: Seq<char>,
    pub counts: Counts,
    pub cases: Seq<CaseContent>,
}

/// What a report tells.
#[verifier::ext_equal]
pub struct ReportContent {
    pub name: Seq<char>,
    pub counts: Counts,
    pub suites: Seq<SuiteContent>,
}

/// What an XML text keeps of a text: terminal escapes and characters that cannot
/// be printed are taken out.
pub uninterp spec fn xml_text(text: Seq<char>) -> Seq<char>;

/// What an outcome holds.
pub uninterp spec fn status_content(status: TestCaseStatus) -> StatusContent;

/// What a test case holds.
pub uninterp spec fn case_content(case: TestCase) -> CaseContent;

/// What a test suite holds.
pub uninterp spec fn suite_content(suite: TestSuite) -> SuiteContent;

/// What a report holds.
pub uninterp spec fn report_content(report: Report) -> ReportContent;

/// The counts of nothing.
pub open spec fn no_counts() -> Counts {
    Counts { tests: 0, failures: 0, skipped: 0 }
}

/// The counts with one more test.
pub open spec fn counted(counts: Counts, outcome: Outcome) -> Counts {
    Counts {
        tests: counts.tests + 1,
        failures: counts.failures + if outcome == Outcome::Failure {
            1nat
        } else {
            0
        },
        skipped: counts.skipped + if outcome == Outcome::Skipped {
            1nat
        } else {
            0
        },
    }
}

/// The counts of two taken together.
pub open spec fn counted_together(a: Counts, b: Counts) -> Counts {
    Counts {
        tests: a.tests + b.tests,
        failures: a.failures + b.failures,
        skipped: a.skipped + b.skipped,
    }
}

/// Whether counts are numbers of the machine.
pub open spec fn countable(counts: Counts) -> bool {
    counts.tests <= usize::MAX && counts.failures <= usize::MAX && counts.skipped <= usize::MAX
}

/// `TestCaseStatus::success`: a success, with nothing said of it.
#[verifier::external_body]
fn status_success() -> (status: TestCaseStatus)
    ensures
        status_content(status) == (StatusContent { outcome: Outcome::Success, description: None }),
{
    TestCaseStatus::success()
}

/// `TestCaseStatus::skipped`: a skipped test, with nothing said of it.
#[verifier::external_body]
fn status_skipped() -> (status: TestCaseStatus)
    ensures
        status_content(status) == (StatusContent { outcome: Outcome::Skipped, description: None }),
{
    TestCaseStatus::skipped()
}

/// `TestCaseStatus::non_success` for a failure: a failure, with nothing said of it.
#[verifier::external_body]
fn status_failure() -> (status: TestCaseStatus)
    ensures
        status_content(status) == (StatusContent { outcome: Outcome::Failure, description: None }),
{
    TestCaseStatus::non_success(NonSuccessKind::Failure)
}

/// `TestCaseStatus::set_description`: the description becomes the XML text, but a
/// success has none and stays as it is.
#[verifier::external_body]
fn set_description(status: &mut TestCaseStatus, text: &str)
    ensures
        status_content(*final(status)) == (StatusContent {
            description: if status_content(*old(status)).outcome == Outcome::Success {
                status_content(*old(status)).description
            } else {
                Some(xml_text(text@))
            },
            ..status_content(*old(status))
        }),
{
    status.set_description(text);
}

/// `TestCase::new`: a case with a name as XML text and an outcome, and nothing
/// else.
#[verifier::external_body]
fn new_case(name: &str, status: TestCaseStatus) -> (case: TestCase)
    ensures
        case_content(case) == (CaseContent {
            name: xml_text(name@),
            status: status_content(status),
            time: None,
            system_out: None,
        }),
{
    TestCase::new(name, status)
}

/// `TestCase::set_time`: the case took that long, and is the same else.
#[verifier::external_body]
fn set_time(case: &mut TestCase, secs: u64, nanos: u32)
    requires
        nanos < 1_000_000_000,
    ensures
        case_content(*final(case)) == (CaseContent {
            time: Some((secs, nanos)),
            ..case_content(*old(case))
        }),
{
    case.set_time(Duration::new(secs, nanos));
}

/// `TestCase::set_system_out`: the case wrote the XML text, and is the same else.
#[verifier::external_body]
fn set_system_out(case: &mut TestCase, text: &str)
    ensures
        case_content(*final(case)) == (CaseContent {
            system_out: Some(xml_text(text@)),
            ..case_content(*old(case))
        }),
{
    case.set_system_out(text);
}

/// `TestSuite::new`: a suite with a name as XML text, no cases and nothing counted.
#[verifier::external_body]
fn new_suite(name: &str) -> (suite: TestSuite)
    ensures
        suite_content(suite) == (SuiteContent {
            name: xml_text(name@),
            counts: no_counts(),
            cases: Seq::empty(),
        }),
{
    TestSuite::new(name)
}

/// `TestSuite::add_test_case`: the case comes behind those that are there, and is
/// counted.
#[verifier::external_body]
fn add_test_case(suite: &mut TestSuite, case: TestCase)
    requires
        countable(
            counted(suite_content(*old(suite)).counts, case_content(case).status.outcome),
        ),
    ensures
        suite_content(*final(suite)) == (SuiteContent {
            counts: counted(suite_content(*old(suite)).counts, case_content(case).status.outcome),
            cases: suite_content(*old(suite)).cases.push(case_content(case)),
            ..suite_content(*old(suite))
        }),
{
    suite.add_test_case(case);
}

/// `Report::new`: a report with a name as XML text, no suites and nothing counted.
#[verifier::external_body]
fn new_report(name: &str) -> (report: Report)
    ensures
        report_content(report) == (ReportContent {
            name: xml_text(name@),
            counts: no_counts(),
            suites: Seq::empty(),
        }),
{
    Report::new(name)
}

/// `Report::add_test_suite`: the suite comes behind those that are there, and what it
/// counts is added.
#[verifier::external_body]
fn add_test_suite(report: &mut Report, suite: TestSuite)
    requires
        countable(
            counted_together(report_content(*old(report)).counts, suite_content(suite).counts),
        ),
    ensures
        report_content(*final(report)) == (ReportContent {
            counts: counted_together(
                report_content(*old(report)).counts,
                suite_content(suite).counts,
            ),
            suites: report_content(*old(report)).suites.push(suite_content(suite)),
            ..report_content(*old(report))
        }),
{
    report.add_test_suite(suite);
}

/// Whether one text comes before another, by the code points from the first on.
pub open spec fn text_before(a: Seq<char>, b: Seq<char>) -> bool
    decreases a.len(),
{
    if b.len() == 0 {
        false
    } else if a.len() == 0 {
        true
    } else if a[0] != b[0] {
        (a[0] as int) < (b[0] as int)
    } else {
        text_before(a.drop_first(), b.drop_first())
    }
}

/// The characters of a text.
fn characters(text: &str) -> (list: Vec<char>)
    ensures
        list@ == text@,
{
    let mut list: Vec<char> = Vec::new();
    for c in iter: text.chars()
        invariant
            list@.len() == iter.index(),
            forall|i: int| 0 <= i < list@.len() ==> #[trigger] list@[i] == iter.seq()[i],
            iter.seq() == text@,
    {
        list.push(c);
    }
    assert(list@ =~= text@);
    list
}

/// Whether one text comes before another.
fn is_before(a: &str, b: &str) -> (before: bool)
    ensures
        before == text_before(a@, b@),
{
    let (first, second): (Vec<char>, Vec<char>) = (characters(a), characters(b));
    let mut at: usize = 0;
    assert(a@.skip(0) =~= a@ && b@.skip(0) =~= b@);
    while at < first.len() && at < second.len() && first[at] == second[at]
        invariant
            first@ == a@,
            second@ == b@,
            at <= first@.len(),
            at <= second@.len(),
            text_before(a@, b@) == text_before(a@.skip(at as int), b@.skip(at as int)),
        decreases first@.len() - at,
    {
        assert(a@.skip(at as int).drop_first() =~= a@.skip(at + 1));
        assert(b@.skip(at as int).drop_first() =~= b@.skip(at + 1));
        at = at + 1;
    }
    let ghost (left, right) = (a@.skip(at as int), b@.skip(at as int));
    assert(at < first@.len() ==> left[0] == first@[at as int]);
    assert(at < second@.len() ==> right[0] == second@[at as int]);
    assert(text_before(a@, b@) == text_before(left, right));
    if at == second.len() {
        false
    } else if at == first.len() {
        true
    } else {
        let (one, other): (char, char) = (first[at], second[at]);
        one < other
    }
}

/// How long a test took.
#[derive(Debug, Clone, Copy, PartialEq, Eq, Structural)]
pub struct Elapsed {
    pub secs: u64,
    pub nanos: u32,
}

/// An event of a test run.
#[derive(Debug)]
pub struct GoEvent {
    pub action: String,
    pub package: String,
    pub import_path: Option<String>,
    pub test: Option<String>,
    pub elapsed: Option<Elapsed>,
    pub output: Option<String>,
}

/// An event of a test run, with its texts as sequences of characters.
#[verifier::ext_equal]
pub struct EventView {
    pub action: Seq<char>,
    pub package: Seq<char>,
    pub import_path: Option<Seq<char>>,
    pub test: Option<Seq<char>>,
    pub elapsed: Option<Elapsed>,
    pub output: Option<Seq<char>>,
}

/// A text that may be missing.
pub open spec fn optional(text: Option<String>) -> Option<Seq<char>> {
    match text {
        Some(text) => Some(text@),
        None => None,
    }
}

impl View for GoEvent {
    type V = EventView;

    open spec fn view(&self) -> EventView {
        EventView {
            action: self.action@,
            package: self.package@,
            import_path: optional(self.import_path),
            test: optional(self.test),
            elapsed: self.elapsed,
            output: optional(self.output),
        }
    }
}

impl GoEvent {
    /// Times of events are whole: less than a second in nanoseconds.
    pub open spec fn wf(self) -> bool {
        self.elapsed matches Some(elapsed) ==> elapsed.nanos < 1_000_000_000
    }
}

/// What is known of a test case.
#[derive(Debug)]
struct CaseData {
    package: String,
    name: String,
    elapsed: Option<Elapsed>,
    output: String,
    action: String,
}

/// What is known of a test case, with its texts as sequences of characters.
#[verifier::ext_equal]
pub struct CaseView {
    pub package: Seq<char>,
    pub name: Seq<char>,
    pub elapsed: Option<Elapsed>,
    pub output: Seq<char>,
    pub action: Seq<char>,
}

impl View for CaseData {
    type V = CaseView;

    closed spec fn view(&self) -> CaseView {
        CaseView {
            package: self.package@,
            name: self.name@,
            elapsed: self.elapsed,
            output: self.output@,
            action: self.action@,
        }
    }
}

/// What a package wrote outside of its tests.
#[derive(Debug)]
struct PackageOutput {
    package: String,
    output: String,
}

/// What a package wrote, with its texts as sequences of characters.
#[verifier::ext_equal]
pub struct OutputView {
    pub package: Seq<char>,
    pub output: Seq<char>,
}

impl View for PackageOutput {
    type V = OutputView;

    closed spec fn view(&self) -> OutputView {
        OutputView { package: self.package@, output: self.output@ }
    }
}

/// What is known of a test run: its cases by package and name, what packages
/// wrote, and which packages failed.
#[verifier::ext_equal]
pub struct RunView {
    pub cases: Seq<CaseView>,
    pub outputs: Seq<OutputView>,
    pub failed: Seq<Seq<char>>,
}

/// Whether a case comes before a package and a name.
pub open spec fn case_before(case: CaseView, package: Seq<char>, name: Seq<char>) -> bool {
    if case.package == package {
        text_before(case.name, name)
    } else {
        text_before(case.package, package)
    }
}

/// Whether a case has a package and a name.
pub open spec fn is_case(case: CaseView, package: Seq<char>, name: Seq<char>) -> bool {
    case.package == package && case.name == name
}

/// The place of a case from position `from` on: the first that does not come
/// before it.
pub open spec fn slot(cases: Seq<CaseView>, package: Seq<char>, name: Seq<char>, from: int) -> int
    decreases cases.len() - from,
{
    if 0 <= from < cases.len() && case_before(cases[from], package, name) {
        slot(cases, package, name, from + 1)
    } else {
        from
    }
}

/// A case of which nothing but the name is known.
pub open spec fn blank(package: Seq<char>, name: Seq<char>) -> CaseView {
    CaseView { package, name, elapsed: None, output: Seq::empty(), action: Seq::empty() }
}

/// Whether an action ends a test.
pub open spec fn is_final(action: Seq<char>) -> bool {
    action == "pass"@ || action == "fail"@ || action == "skip"@
}

/// What is known of a case after an event.
pub open spec fn case_after(case: CaseView, event: EventView) -> CaseView {
    CaseView {
        elapsed: if event.elapsed is Some {
            event.elapsed
        } else {
            case.elapsed
        },
        output: match event.output {
            Some(text) => case.output + text,
            None => case.output,
        },
        action: if is_final(event.action) {
            event.action
        } else {
            case.action
        },
        ..case
    }
}

/// The cases after an event of a test: its case is updated, or comes to its place.
pub open spec fn cases_after(cases: Seq<CaseView>, event: EventView, test: Seq<char>) -> Seq<
    CaseView,
> {
    let at = slot(cases, event.package, test, 0);
    if at < cases.len() && is_case(cases[at], event.package, test) {
        cases.update(at, case_after(cases[at], event))
    } else {
        cases.insert(at, case_after(blank(event.package, test), event))
    }
}

/// Where the output of a package is, from position `from` on.
pub open spec fn output_slot(outputs: Seq<OutputView>, package: Seq<char>, from: int) -> int
    decreases outputs.len() - from,
{
    if 0 <= from < outputs.len() && outputs[from].package != package {
        output_slot(outputs, package, from + 1)
    } else {
        from
    }
}

/// The outputs when a package wrote more.
pub open spec fn with_output(outputs: Seq<OutputView>, package: Seq<char>, text: Seq<char>) -> Seq<
    OutputView,
> {
    let at = output_slot(outputs, package, 0);
    if at < outputs.len() {
        outputs.update(at, OutputView { package, output: outputs[at].output + text })
    } else {
        outputs.push(OutputView { package, output: text })
    }
}

/// The failed packages when one more failed.
pub open spec fn with_failed(failed: Seq<Seq<char>>, package: Seq<char>) -> Seq<Seq<char>> {
    if failed.contains(package) {
        failed
    } else {
        failed.push(package)
    }
}

/// Where a space and an opening bracket follow each other, from position `from`
/// on; the end of the text where they do not.
pub open spec fn bracket_at(text: Seq<char>, from: int) -> int
    decreases text.len() - from,
{
    if from + 1 >= text.len() {
        text.len() as int
    } else if text[from] == ' ' && text[from + 1] == '[' {
        from
    } else {
        bracket_at(text, from + 1)
    }
}

/// The package of an event. A build is told by an import path, in which what is
/// built follows in brackets.
pub open spec fn package_of(event: EventView) -> Seq<char> {
    if event.package.len() > 0 {
        event.package
    } else {
        match event.import_path {
            Some(path) => path.take(bracket_at(path, 0)),
            None => Seq::empty(),
        }
    }
}

/// What is known of a run after an event.
pub open spec fn run_after(run: RunView, event: EventView) -> RunView {
    match event.test {
        Some(test) => RunView { cases: cases_after(run.cases, event, test), ..run },
        None => RunView {
            outputs: if event.action == "output"@ || event.action == "fail"@ || event.action
                == "build-output"@ {
                with_output(
                    run.outputs,
                    package_of(event),
                    match event.output {
                        Some(text) => text,
                        None => Seq::empty(),
                    },
                )
            } else {
                run.outputs
            },
            failed: if event.action == "fail"@ || event.action == "build-fail"@ {
                with_failed(run.failed, package_of(event))
            } else {
                run.failed
            },
            ..run
        },
    }
}

/// What is known of a run after its first `n` events.
pub open spec fn run_of(events: Seq<GoEvent>, n: int) -> RunView
    decreases n,
{
    if n <= 0 {
        RunView { cases: Seq::empty(), outputs: Seq::empty(), failed: Seq::empty() }
    } else {
        run_after(run_of(events, n - 1), events[n - 1]@)
    }
}

/// Whether a package has a case.
pub open spec fn has_case(cases: Seq<CaseView>, package: Seq<char>) -> bool {
    exists|i: int| 0 <= i < cases.len() && (#[trigger] cases[i]).package == package
}

/// The case that stands for the build of a package that failed.
pub open spec fn build_case(output: OutputView) -> CaseView {
    CaseView {
        package: output.package,
        name: "package build"@,
        elapsed: None,
        output: output.output,
        action: "fail"@,
    }
}

/// The cases, with one for each of the first `n` packages that failed without a
/// case of its own.
pub open spec fn with_builds(run: RunView, n: int) -> Seq<CaseView>
    decreases n,
{
    if n <= 0 {
        run.cases
    } else {
        let cases = with_builds(run, n - 1);
        let output = run.outputs[n - 1];
        if run.failed.contains(output.package) && !has_case(cases, output.package) {
            cases.insert(slot(cases, output.package, "package build"@, 0), build_case(output))
        } else {
            cases
        }
    }
}

/// The cases that are reported.
pub open spec fn reported(run: RunView) -> Seq<CaseView> {
    with_builds(run, run.outputs.len() as int)
}

/// Whether a case failed.
pub open spec fn any_failed(cases: Seq<CaseView>) -> bool {
    exists|i: int| 0 <= i < cases.len() && (#[trigger] cases[i]).action == "fail"@
}

/// What the report tells of a case.
pub open spec fn content_of(case: CaseView) -> CaseContent {
    CaseContent {
        name: xml_text(case.name),
        status: if case.action == "skip"@ {
            StatusContent { outcome: Outcome::Skipped, description: None }
        } else if case.action == "fail"@ {
            StatusContent { outcome: Outcome::Failure, description: Some(xml_text(case.output)) }
        } else {
            StatusContent { outcome: Outcome::Success, description: None }
        },
        time: match case.elapsed {
            Some(elapsed) => Some((elapsed.secs, elapsed.nanos)),
            None => None,
        },
        system_out: if case.output.len() > 0 {
            Some(xml_text(case.output))
        } else {
            None
        },
    }
}

/// The suites of the first `n` cases: one for each package, in order.
pub open spec fn suites_of(cases: Seq<CaseView>, n: int) -> Seq<SuiteContent>
    decreases n,
{
    if n <= 0 {
        Seq::empty()
    } else {
        let before = suites_of(cases, n - 1);
        let content = content_of(cases[n - 1]);
        if n > 1 && cases[n - 2].package == cases[n - 1].package {
            before.update(
                before.len() - 1,
                SuiteContent {
                    counts: counted(before.last().counts, content.status.outcome),
                    cases: before.last().cases.push(content),
                    ..before.last()
                },
            )
        } else {
            before.push(
                SuiteContent {
                    name: xml_text(cases[n - 1].package),
                    counts: counted(no_counts(), content.status.outcome),
                    cases: seq![content],
                },
            )
        }
    }
}

/// The number of the first `n` cases with an action.
pub open spec fn number_with(cases: Seq<CaseView>, n: int, action: Seq<char>) -> nat
    decreases n,
{
    if n <= 0 {
        0
    } else {
        number_with(cases, n - 1, action) + if cases[n - 1].action == action {
            1nat
        } else {
            0
        }
    }
}

/// The counts of the first `n` cases.
pub open spec fn counts_of(cases: Seq<CaseView>, n: int) -> Counts {
    Counts {
        tests: n as nat,
        failures: number_with(cases, n, "fail"@),
        skipped: number_with(cases, n, "skip"@),
    }
}

/// The report of a run.
pub open spec fn report_of(cases: Seq<CaseView>) -> ReportContent {
    ReportContent {
        name: xml_text("go test"@),
        counts: counts_of(cases, cases.len() as int),
        suites: suites_of(cases, cases.len() as int),
    }
}

/// One more case is counted by its action.
proof fn lemma_counts(cases: Seq<CaseView>, n: int)
    requires
        0 <= n,
    ensures
        counts_of(cases, n).failures <= n,
        counts_of(cases, n).skipped <= n,
        n > 0 ==> counts_of(cases, n) == counted(
            counts_of(cases, n - 1),
            content_of(cases[n - 1]).status.outcome,
        ),
    decreases n,
{
    reveal_strlit("skip");
    reveal_strlit("fail");
    assert("skip"@[0] != "fail"@[0]);
    if n > 0 {
        lemma_counts(cases, n - 1);
    }
}

fn is_text(text: &String, expected: &str) -> (same: bool)
    ensures
        same == (text@ == expected@),
{
    *text == expected.to_string()
}

/// The package of an event.
pub fn event_package(event: &GoEvent) -> (package: String)
    ensures
        package@ == package_of(event@),
{
    if event.package.as_str().unicode_len() > 0 {
        return event.package.as_str().to_string();
    }
    match &event.import_path {
        None => {
            let package = String::new();
            assert(package@ =~= Seq::empty());
            package
        },
        Some(path) => {
            let text: &str = path.as_str();
            let length: usize = text.unicode_len();
            let mut at: usize = 0;
            while at < length && !(length - at > 1 && text.get_char(at) == ' ' && text.get_char(
                at + 1,
            ) == '[')
                invariant
                    length == text@.len(),
                    text@ == path@,
                    at <= length,
                    bracket_at(text@, 0) == bracket_at(text@, at as int),
                decreases length - at,
            {
                at = at + 1;
            }
            assert(text@.subrange(0, at as int) =~= text@.take(at as int));
            text.substring_char(0, at).to_string()
        },
    }
}

/// What is known of a test run.
#[derive(Debug)]
pub struct TestRun {
    cases: Vec<CaseData>,
    outputs: Vec<PackageOutput>,
    failed: Vec<String>,
}

impl View for TestRun {
    type V = RunView;

    closed spec fn view(&self) -> RunView {
        RunView {
            cases: case_views(self.cases@),
            outputs: Seq::new(self.outputs@.len(), |i: int| self.outputs@[i]@),
            failed: Seq::new(self.failed@.len(), |i: int| self.failed@[i]@),
        }
    }
}

/// The cases of a list.
closed spec fn case_views(cases: Seq<CaseData>) -> Seq<CaseView> {
    Seq::new(cases.len(), |i: int| cases[i]@)
}

fn comes_before(case: &CaseData, package: &String, name: &str) -> (before: bool)
    ensures
        before == case_before(case@, package@, name@),
{
    if case.package == *package {
        is_before(case.name.as_str(), name)
    } else {
        is_before(case.package.as_str(), package.as_str())
    }
}

fn find_slot(cases: &Vec<CaseData>, package: &String, name: &str) -> (at: usize)
    ensures
        at == slot(case_views(cases@), package@, name@, 0),
        at <= cases@.len(),
{
    let ghost views = case_views(cases@);
    let mut at: usize = 0;
    while at < cases.len() && comes_before(&cases[at], package, name)
        invariant
            views == case_views(cases@),
            at <= cases@.len(),
            slot(views, package@, name@, 0) == slot(views, package@, name@, at as int),
        decreases cases@.len() - at,
    {
        at = at + 1;
    }
    at
}

impl TestRun {
    /// Times of cases are whole.
    pub closed spec fn wf(self) -> bool {
        forall|i: int|
            0 <= i < self.cases@.len() ==> ((#[trigger] self.cases@[i]).elapsed matches Some(elapsed)
                ==> elapsed.nanos < 1_000_000_000)
    }

    /// A run of which nothing is known.
    pub fn new() -> (run: Self)
        ensures
            run.wf(),
            run@ == (RunView {
                cases: Seq::empty(),
                outputs: Seq::empty(),
                failed: Seq::empty(),
            }),
    {
        let run = TestRun { cases: Vec::new(), outputs: Vec::new(), failed: Vec::new() };
        assert(run@.cases =~= Seq::empty());
        assert(run@.outputs =~= Seq::empty());
        assert(run@.failed =~= Seq::empty());
        run
    }

    fn add_output(&mut self, package: &String, text: &str)
        ensures
            final(self)@ == (RunView {
                outputs: with_output(old(self)@.outputs, package@, text@),
                ..old(self)@
            }),
            final(self).cases == old(self).cases,
    {
        let ghost outputs = self@.outputs;
        let mut at: usize = 0;
        while at < self.outputs.len() && !(self.outputs[at].package == *package)
            invariant
                outputs == self@.outputs,
                at <= self.outputs@.len(),
                output_slot(outputs, package@, 0) == output_slot(outputs, package@, at as int),
            decreases self.outputs@.len() - at,
        {
            at = at + 1;
        }
        if at < self.outputs.len() {
            let mut entry: PackageOutput = self.outputs.remove(at);
            assert(entry@ == outputs[at as int]);
            entry.output.append(text);
            self.outputs.insert(at, entry);
        } else {
            self.outputs.push(
                PackageOutput {
                    package: package.as_str().to_string(),
                    output: text.to_string(),
                },
            );
        }
        assert(self@.outputs =~= with_output(outputs, package@, text@));
        assert(self@.failed =~= old(self)@.failed);
    }

    fn is_failed(&self, package: &String) -> (found: bool)
        ensures
            found == self@.failed.contains(package@),
    {
        for i in 0..self.failed.len()
            invariant
                forall|j: int| 0 <= j < i ==> (#[trigger] self.failed@[j])@ != package@,
        {
            if self.failed[i] == *package {
                assert(self@.failed[i as int] == package@);
                return true;
            }
        }
        assert(!self@.failed.contains(package@)) by {
            if self@.failed.contains(package@) {
                let i = choose|i: int|
                    0 <= i < self@.failed.len() && #[trigger] self@.failed[i] == package@;
                assert(self.failed@[i]@ == package@);
            }
        }
        false
    }

    fn add_failed(&mut self, package: String)
        ensures
            final(self)@ == (RunView {
                failed: with_failed(old(self)@.failed, package@),
                ..old(self)@
            }),
            final(self).cases == old(self).cases,
    {
        if !self.is_failed(&package) {
            self.failed.push(package);
        }
        assert(self@.failed =~= with_failed(old(self)@.failed, package@));
        assert(self@.outputs =~= old(self)@.outputs);
    }

    /// Takes in an event.
    pub fn add_event(&mut self, event: GoEvent)
        requires
            old(self).wf(),
            event.wf(),
        ensures
            final(self).wf(),
            final(self)@ == run_after(old(self)@, event@),
    {
        let ghost said = event@;
        if event.test.is_none() {
            let package: String = event_package(&event);
            if is_text(&event.action, "output") || is_text(&event.action, "fail") || is_text(
                &event.action,
                "build-output",
            ) {
                match &event.output {
                    Some(text) => {
                        self.add_output(&package, text.as_str());
                    },
                    None => {
                        proof {
                            reveal_strlit("");
                        }
                        assert(""@ =~= Seq::empty());
                        self.add_output(&package, "");
                    },
                }
            }
            if is_text(&event.action, "fail") || is_text(&event.action, "build-fail") {
                self.add_failed(package);
            }
            return;
        }
        let GoEvent { action, package, import_path: _, test, elapsed, output } = event;
        let test: String = match test {
            Some(test) => test,
            None => {
                return;
            },
        };
        let ghost cases = self@.cases;
        let at: usize = find_slot(&self.cases, &package, test.as_str());
        let known: bool = at < self.cases.len() && self.cases[at].package == package
            && self.cases[at].name == test;
        let mut case: CaseData = if known {
            self.cases.remove(at)
        } else {
            let blank_case = CaseData {
                package,
                name: test,
                elapsed: None,
                output: String::new(),
                action: String::new(),
            };
            assert(blank_case.output@ =~= Seq::empty());
            assert(blank_case.action@ =~= Seq::empty());
            blank_case
        };
        let ghost begun = case@;
        assert(begun == if known {
            cases[at as int]
        } else {
            blank(said.package, said.test->0)
        });
        if elapsed.is_some() {
            case.elapsed = elapsed;
        }
        if let Some(text) = output {
            case.output.append(text.as_str());
        }
        if is_text(&action, "pass") || is_text(&action, "fail") || is_text(&action, "skip") {
            case.action = action;
        }
        assert(case@ == case_after(begun, said));
        self.cases.insert(at, case);
        assert(self@.cases =~= cases_after(cases, said, said.test->0));
        assert(self@.outputs =~= old(self)@.outputs);
        assert(self@.failed =~= old(self)@.failed);
    }

    fn has_package(&self, package: &String) -> (found: bool)
        ensures
            found == has_case(self@.cases, package@),
    {
        for i in 0..self.cases.len()
            invariant
                forall|j: int| 0 <= j < i ==> (#[trigger] self@.cases[j]).package != package@,
        {
            if self.cases[i].package == *package {
                assert(self@.cases[i as int].package == package@);
                return true;
            }
        }
        false
    }

    fn add_builds(&mut self)
        requires
            old(self).wf(),
        ensures
            final(self).wf(),
            final(self)@ == (RunView { cases: reported(old(self)@), ..old(self)@ }),
    {
        let ghost run = self@;
        let count: usize = self.outputs.len();
        for n in 0..count
            invariant
                count == run.outputs.len(),
                self.wf(),
                self@ == (RunView { cases: with_builds(run, n as int), ..run }),
        {
            let ghost cases = self@.cases;
            assert(self.outputs@[n as int]@ == run.outputs[n as int]);
            let package: String = self.outputs[n].package.as_str().to_string();
            if self.is_failed(&package) && !self.has_package(&package) {
                let at: usize = find_slot(&self.cases, &package, "package build");
                let case = CaseData {
                    package,
                    name: "package build".to_string(),
                    elapsed: None,
                    output: self.outputs[n].output.as_str().to_string(),
                    action: "fail".to_string(),
                };
                assert(case@ == build_case(run.outputs[n as int]));
                self.cases.insert(at, case);
                assert(self@.cases =~= cases.insert(
                    at as int,
                    build_case(run.outputs[n as int]),
                ));
            }
            assert(self@.cases =~= with_builds(run, n + 1));
            assert(self@.outputs =~= run.outputs);
            assert(self@.failed =~= run.failed);
        }
    }

    fn any_failure(&self) -> (failed: bool)
        ensures
            failed == any_failed(self@.cases),
    {
        for i in 0..self.cases.len()
            invariant
                forall|j: int| 0 <= j < i ==> (#[trigger] self@.cases[j]).action != "fail"@,
        {
            if is_text(&self.cases[i].action, "fail") {
                assert(self@.cases[i as int].action == "fail"@);
                return true;
            }
        }
        false
    }

    fn report_cases(&self) -> (report: Report)
        requires
            self.wf(),
        ensures
            report_content(report) == report_of(self@.cases),
    {
        let ghost cases = self@.cases;
        let mut report: Report = new_report("go test");
        let mut start: usize = 0;
        assert(counts_of(cases, 0) == no_counts());
        while start < self.cases.len()
            invariant
                self.wf(),
                cases == self@.cases,
                start <= self.cases@.len(),
                0 < start < cases.len() ==> cases[start - 1].package != cases[start as int].package,
                report_content(report).name == xml_text("go test"@),
                report_content(report).suites == suites_of(cases, start as int),
                report_content(report).counts == counts_of(cases, start as int),
            decreases self.cases@.len() - start,
        {
            let ghost before = suites_of(cases, start as int);
            assert(self.cases@[start as int]@ == cases[start as int]);
            proof {
                lemma_counts(cases, start + 1);
            }
            let mut suite: TestSuite = new_suite(self.cases[start].package.as_str());
            add_test_case(&mut suite, make_case(&self.cases[start]));
            let mut end: usize = start + 1;
            assert(suite_content(suite).cases =~= seq![content_of(cases[start as int])]);
            assert(before.push(suite_content(suite)) =~= suites_of(cases, end as int));
            while end < self.cases.len() && self.cases[end].package == self.cases[end - 1].package
                invariant
                    self.wf(),
                    cases == self@.cases,
                    start < end <= self.cases@.len(),
                    before.push(suite_content(suite)) == suites_of(cases, end as int),
                    counted_together(
                        counts_of(cases, start as int),
                        suite_content(suite).counts,
                    ) == counts_of(cases, end as int),
                decreases self.cases@.len() - end,
            {
                assert(self.cases@[end as int]@ == cases[end as int]);
                assert(self.cases@[end - 1]@ == cases[end - 1]);
                let ghost grown = suites_of(cases, end as int);
                assert(grown.last() == suite_content(suite));
                proof {
                    lemma_counts(cases, end + 1);
                }
                add_test_case(&mut suite, make_case(&self.cases[end]));
                end = end + 1;
                assert(before.push(suite_content(suite)) =~= suites_of(cases, end as int));
            }
            if end < self.cases.len() {
                assert(self.cases@[end as int]@ == cases[end as int]);
                assert(self.cases@[end - 1]@ == cases[end - 1]);
            }
            proof {
                lemma_counts(cases, end as int);
            }
            add_test_suite(&mut report, suite);
            start = end;
        }
        report
    }

    /// The report of the run, and whether anything failed. A package that failed
    /// without a test is reported as a failed build.
    pub fn finish(self) -> (result: (Report, bool))
        requires
            self.wf(),
        ensures
            report_content(result.0) == report_of(reported(self@)),
            result.1 == any_failed(reported(self@)),
    {
        let mut run: TestRun = self;
        run.add_builds();
        let had_failure: bool = run.any_failure();
        (run.report_cases(), had_failure)
    }
}

fn make_case(data: &CaseData) -> (case: TestCase)
    requires
        data.elapsed matches Some(elapsed) ==> elapsed.nanos < 1_000_000_000,
    ensures
        case_content(case) == content_of(data@),
{
    let mut status: TestCaseStatus = if is_text(&data.action, "skip") {
        status_skipped()
    } else if is_text(&data.action, "fail") {
        status_failure()
    } else {
        status_success()
    };
    proof {
        reveal_strlit("skip");
        reveal_strlit("fail");
        assert("skip"@[0] != "fail"@[0]);
    }
    if is_text(&data.action, "fail") {
        set_description(&mut status, data.output.as_str());
    }
    let mut case: TestCase = new_case(data.name.as_str(), status);
    if let Some(elapsed) = data.elapsed {
        set_time(&mut case, elapsed.secs, elapsed.nanos);
    }
    if data.output.as_str().unicode_len() > 0 {
        set_system_out(&mut case, data.output.as_str());
    }
    case
}

/// The report of a run out of its events, and whether anything failed.
pub fn convert(events: Vec<GoEvent>) -> (result: (Report, bool))
    requires
        forall|i: int| 0 <= i < events@.len() ==> (#[trigger] events@[i]).wf(),
    ensures
        report_content(result.0) == report_of(reported(run_of(events@, events@.len() as int))),
        result.1 == any_failed(reported(run_of(events@, events@.len() as int))),
        result.1 <==> report_content(result.0).counts.failures > 0,
{
    let ghost all = events@;
    let mut events: Vec<GoEvent> = events;
    let mut run: TestRun = TestRun::new();
    while events.len() > 0
        invariant
            forall|i: int| 0 <= i < all.len() ==> (#[trigger] all[i]).wf(),
            events@.len() <= all.len(),
            events@ == all.skip(all.len() - events@.len()),
            run.wf(),
            run@ == run_of(all, all.len() - events@.len()),
        decreases events@.len(),
    {
        let ghost done = all.len() - events@.len();
        let event: GoEvent = events.remove(0);
        assert(event == all[done]);
        run.add_event(event);
        assert(events@ =~= all.skip(done + 1));
    }
    proof {
        law_a_counted_failure_fails_the_run(reported(run@));
    }
    run.finish()
}

/// Whether cases are in order of package and name, each of them once.
pub open spec fn in_order(cases: Seq<CaseView>) -> bool {
    forall|i: int, j: int|
        0 <= i < j < cases.len() ==> case_before(
            #[trigger] cases[i],
            (#[trigger] cases[j]).package,
            cases[j].name,
        )
}

proof fn lemma_before_is_total(a: Seq<char>, b: Seq<char>)
    ensures
        text_before(a, b) || a == b || text_before(b, a),
        !(text_before(a, b) && text_before(b, a)),
        !text_before(a, a),
    decreases a.len(),
{
    if a.len() == 0 || b.len() == 0 {
        assert(a.len() == 0 && b.len() == 0 ==> a =~= b);
        if a.len() > 0 {
            lemma_before_is_total(a.drop_first(), a.drop_first());
        }
    } else {
        lemma_before_is_total(a.drop_first(), b.drop_first());
        lemma_before_is_total(a.drop_first(), a.drop_first());
        if a[0] == b[0] && a.drop_first() == b.drop_first() {
            assert(a =~= seq![a[0]] + a.drop_first());
            assert(b =~= seq![b[0]] + b.drop_first());
        }
    }
}

proof fn lemma_before_is_transitive(a: Seq<char>, b: Seq<char>, c: Seq<char>)
    requires
        text_before(a, b),
        text_before(b, c),
    ensures
        text_before(a, c),
    decreases a.len(),
{
    if a.len() > 0 && a[0] == b[0] && b[0] == c[0] {
        lemma_before_is_transitive(a.drop_first(), b.drop_first(), c.drop_first());
    }
}

proof fn lemma_case_order(a: CaseView, b: CaseView, package: Seq<char>, name: Seq<char>)
    ensures
        case_before(a, b.package, b.name) && case_before(b, package, name) ==> case_before(
            a,
            package,
            name,
        ),
        case_before(a, package, name) || is_case(a, package, name) || case_before(
            CaseView { package, name, ..a },
            a.package,
            a.name,
        ),
{
    lemma_before_is_total(a.package, package);
    lemma_before_is_total(a.name, name);
    lemma_before_is_total(a.package, b.package);
    lemma_before_is_total(b.package, package);
    if text_before(a.package, b.package) && text_before(b.package, package) {
        lemma_before_is_transitive(a.package, b.package, package);
    }
    if text_before(a.name, b.name) && text_before(b.name, name) {
        lemma_before_is_transitive(a.name, b.name, name);
    }
}

proof fn lemma_slot(cases: Seq<CaseView>, package: Seq<char>, name: Seq<char>, from: int)
    requires
        0 <= from <= cases.len(),
        forall|i: int| 0 <= i < from ==> case_before(#[trigger] cases[i], package, name),
    ensures
        from <= slot(cases, package, name, from) <= cases.len(),
        forall|i: int|
            0 <= i < slot(cases, package, name, from) ==> case_before(
                #[trigger] cases[i],
                package,
                name,
            ),
        slot(cases, package, name, from) < cases.len() ==> !case_before(
            cases[slot(cases, package, name, from)],
            package,
            name,
        ),
    decreases cases.len() - from,
{
    if from < cases.len() && case_before(cases[from], package, name) {
        lemma_slot(cases, package, name, from + 1);
    }
}

proof fn lemma_insert_keeps_order(cases: Seq<CaseView>, case: CaseView)
    requires
        in_order(cases),
        ({
            let at = slot(cases, case.package, case.name, 0);
            !(at < cases.len() && is_case(cases[at], case.package, case.name))
        }),
    ensures
        in_order(cases.insert(slot(cases, case.package, case.name, 0), case)),
{
    let at = slot(cases, case.package, case.name, 0);
    lemma_slot(cases, case.package, case.name, 0);
    let grown = cases.insert(at, case);
    assert forall|i: int, j: int| 0 <= i < j < grown.len() implies case_before(
        #[trigger] grown[i],
        (#[trigger] grown[j]).package,
        grown[j].name,
    ) by {
        if i == at {
            assert(grown[j] == cases[j - 1]);
            lemma_case_order(cases[at], case, case.package, case.name);
            if j - 1 > at {
                assert(case_before(cases[at], cases[j - 1].package, cases[j - 1].name));
                lemma_case_order(case, cases[at], cases[j - 1].package, cases[j - 1].name);
            }
        } else if j == at {
            assert(grown[i] == cases[i]);
        } else {
            let a = if i < at { i } else { i - 1 };
            let b = if j < at { j } else { j - 1 };
            assert(grown[i] == cases[a] && grown[j] == cases[b]);
        }
    }
}

/// However events come, the cases stay in order of package and name, each of them
/// once.
pub proof fn law_cases_stay_in_order(run: RunView, event: EventView)
    requires
        in_order(run.cases),
    ensures
        in_order(run_after(run, event).cases),
{
    if let Some(test) = event.test {
        let cases = run.cases;
        let at = slot(cases, event.package, test, 0);
        lemma_slot(cases, event.package, test, 0);
        if at < cases.len() && is_case(cases[at], event.package, test) {
            let updated = cases_after(cases, event, test);
            assert forall|i: int, j: int| 0 <= i < j < updated.len() implies case_before(
                #[trigger] updated[i],
                (#[trigger] updated[j]).package,
                updated[j].name,
            ) by {
                assert(case_before(cases[i], cases[j].package, cases[j].name));
            }
        } else {
            lemma_insert_keeps_order(cases, case_after(blank(event.package, test), event));
        }
    }
}

proof fn lemma_builds_cover(run: RunView, n: int, k: int)
    requires
        0 <= k < n <= run.outputs.len(),
        run.failed.contains(run.outputs[k].package),
    ensures
        has_case(with_builds(run, n), run.outputs[k].package),
    decreases n,
{
    let cases = with_builds(run, n - 1);
    let output = run.outputs[n - 1];
    let at = slot(cases, output.package, "package build"@, 0);
    lemma_slot(cases, output.package, "package build"@, 0);
    if k < n - 1 {
        lemma_builds_cover(run, n - 1, k);
        let i = choose|i: int|
            0 <= i < cases.len() && (#[trigger] cases[i]).package == run.outputs[k].package;
        let after = with_builds(run, n);
        if after != cases {
            let moved = if i < at {
                i
            } else {
                i + 1
            };
            assert(after[moved] == cases[i]);
        }
    } else if !has_case(cases, output.package) {
        assert(with_builds(run, n)[at] == build_case(output));
    }
}

/// A package that failed and wrote something is never missing from the report: it
/// has a case of its own, or one for its build.
pub proof fn law_failed_package_is_reported(run: RunView, k: int)
    requires
        0 <= k < run.outputs.len(),
        run.failed.contains(run.outputs[k].package),
    ensures
        has_case(reported(run), run.outputs[k].package),
{
    lemma_builds_cover(run, run.outputs.len() as int, k);
}

/// A run in which only a build failed is not told as a success.
pub proof fn law_failed_build_is_a_failure(run: RunView)
    requires
        run.cases.len() == 0,
        run.outputs.len() > 0,
        run.failed.contains(run.outputs[0].package),
    ensures
        any_failed(reported(run)),
{
    lemma_all_builds_fail(run, run.outputs.len() as int);
    lemma_builds_cover(run, run.outputs.len() as int, 0);
}

proof fn lemma_all_builds_fail(run: RunView, n: int)
    requires
        run.cases.len() == 0,
        0 <= n <= run.outputs.len(),
    ensures
        forall|i: int|
            0 <= i < with_builds(run, n).len() ==> (#[trigger] with_builds(run, n)[i]).action
                == "fail"@,
    decreases n,
{
    if n > 0 {
        lemma_all_builds_fail(run, n - 1);
        let cases = with_builds(run, n - 1);
        let output = run.outputs[n - 1];
        let at = slot(cases, output.package, "package build"@, 0);
        lemma_slot(cases, output.package, "package build"@, 0);
        assert forall|i: int| 0 <= i < with_builds(run, n).len() implies (#[trigger] with_builds(
            run,
            n,
        )[i]).action == "fail"@ by {
            let after = with_builds(run, n);
            if after != cases && i != at {
                assert(after[i] == cases[if i < at { i } else { i - 1 }]);
            }
        }
    }
}

proof fn lemma_number_with(cases: Seq<CaseView>, n: int, action: Seq<char>)
    requires
        0 <= n <= cases.len(),
    ensures
        number_with(cases, n, action) <= n,
        number_with(cases, n, action) > 0 <==> exists|i: int|
            0 <= i < n && (#[trigger] cases[i]).action == action,
    decreases n,
{
    if n > 0 {
        lemma_number_with(cases, n - 1, action);
        if number_with(cases, n - 1, action) > 0 {
            let i = choose|i: int| 0 <= i < n - 1 && (#[trigger] cases[i]).action == action;
            assert(cases[i].action == action);
        }
        if cases[n - 1].action == action {
            assert(number_with(cases, n, action) > 0);
        }
    }
}

/// A run is told as failed exactly where its report counts a failure.
pub proof fn law_a_counted_failure_fails_the_run(cases: Seq<CaseView>)
    ensures
        any_failed(cases) <==> report_of(cases).counts.failures > 0,
        report_of(cases).counts.tests == cases.len(),
{
    lemma_number_with(cases, cases.len() as int, "fail"@);
}

/// The cases of all suites, one suite after the other.
pub open spec fn all_cases(suites: Seq<SuiteContent>) -> Seq<CaseContent>
    decreases suites.len(),
{
    if suites.len() == 0 {
        Seq::empty()
    } else {
        all_cases(suites.drop_last()) + suites.last().cases
    }
}

/// The suite of each case of all suites.
pub open spec fn all_names(suites: Seq<SuiteContent>) -> Seq<Seq<char>>
    decreases suites.len(),
{
    if suites.len() == 0 {
        Seq::empty()
    } else {
        all_names(suites.drop_last()) + Seq::new(
            suites.last().cases.len(),
            |i: int| suites.last().name,
        )
    }
}

proof fn lemma_all_cases(cases: Seq<CaseView>, n: int)
    requires
        0 <= n <= cases.len(),
    ensures
        n > 0 <==> suites_of(cases, n).len() > 0,
        n > 0 ==> suites_of(cases, n).last().name == xml_text(cases[n - 1].package),
        all_cases(suites_of(cases, n)) == Seq::new(n as nat, |i: int| content_of(cases[i])),
        all_names(suites_of(cases, n)) == Seq::new(n as nat, |i: int| xml_text(cases[i].package)),
        forall|k: int|
            0 <= k < suites_of(cases, n).len() ==> (#[trigger] suites_of(cases, n)[k]).cases.len() > 0,
    decreases n,
{
    if n > 0 {
        lemma_all_cases(cases, n - 1);
        let before = suites_of(cases, n - 1);
        let after = suites_of(cases, n);
        let content = content_of(cases[n - 1]);
        assert(after.drop_last() =~= if n > 1 && cases[n - 2].package == cases[n - 1].package {
            before.drop_last()
        } else {
            before
        });
        assert(all_cases(after) =~= all_cases(before).push(content));
        assert(all_names(after) =~= all_names(before).push(xml_text(cases[n - 1].package)));
        assert(all_cases(after) =~= Seq::new(n as nat, |i: int| content_of(cases[i])));
        assert(all_names(after) =~= Seq::new(n as nat, |i: int| xml_text(cases[i].package)));
        assert forall|k: int| 0 <= k < after.len() implies (#[trigger] after[k]).cases.len() > 0 by {
            if k < before.len() {
                assert(before[k].cases.len() > 0);
            }
        }
    } else {
        assert(all_cases(suites_of(cases, n)) =~= Seq::new(0, |i: int| content_of(cases[i])));
        assert(all_names(suites_of(cases, n)) =~= Seq::new(0, |i: int| xml_text(cases[i].package)));
    }
}

/// Every case is in the report, once, in order, and in the suite of its package: under its
/// name, with its time, and with what it wrote if it wrote something. It is told as a
/// failure where it ended with `fail`, and as skipped where it ended with `skip`, and a
/// failure also says what it wrote.
pub proof fn law_every_case_is_reported(cases: Seq<CaseView>, i: int)
    requires
        0 <= i < cases.len(),
    ensures
        ({
            let told = all_cases(report_of(cases).suites);
            let case = cases[i];
            &&& told.len() == cases.len()
            &&& told[i].name == xml_text(case.name)
            &&& all_names(report_of(cases).suites)[i] == xml_text(case.package)
            &&& told[i].status.outcome == Outcome::Failure <==> case.action == "fail"@
            &&& told[i].status.outcome == Outcome::Skipped <==> case.action == "skip"@
            &&& told[i].status.description == if case.action == "fail"@ {
                Some(xml_text(case.output))
            } else {
                None
            }
            &&& told[i].system_out == if case.output.len() == 0 {
                None
            } else {
                Some(xml_text(case.output))
            }
            &&& told[i].time is Some <==> case.elapsed is Some
            &&& case.elapsed matches Some(elapsed) ==> told[i].time == Some(
                (elapsed.secs, elapsed.nanos),
            )
        }),
{
    lemma_all_cases(cases, cases.len() as int);
    reveal_strlit("skip");
    reveal_strlit("fail");
    assert("skip"@[0] != "fail"@[0]);
}

/// The counts of a suite are those of its cases.
pub open spec fn counts_its_cases(suite: SuiteContent) -> bool {
    &&& suite.counts.tests == suite.cases.len()
    &&& suite.counts.failures == suite.cases.filter(
        |case: CaseContent| case.status.outcome == Outcome::Failure,
    ).len()
    &&& suite.counts.skipped == suite.cases.filter(
        |case: CaseContent| case.status.outcome == Outcome::Skipped,
    ).len()
}

proof fn lemma_filter_push(cases: Seq<CaseContent>, case: CaseContent, outcome: Outcome)
    ensures
        cases.push(case).filter(|c: CaseContent| c.status.outcome == outcome).len() == cases.filter(
            |c: CaseContent| c.status.outcome == outcome,
        ).len() + if case.status.outcome == outcome {
            1int
        } else {
            0
        },
{
    reveal(Seq::filter);
    assert(cases.push(case).drop_last() =~= cases);
}

proof fn lemma_suite_counts(cases: Seq<CaseView>, n: int)
    requires
        0 <= n <= cases.len(),
    ensures
        forall|k: int|
            0 <= k < suites_of(cases, n).len() ==> counts_its_cases(#[trigger] suites_of(cases, n)[k]),
    decreases n,
{
    if n > 0 {
        lemma_suite_counts(cases, n - 1);
        lemma_all_cases(cases, n - 1);
        let before = suites_of(cases, n - 1);
        let after = suites_of(cases, n);
        let content = content_of(cases[n - 1]);
        let none = Seq::<CaseContent>::empty();
        assert forall|k: int| 0 <= k < after.len() implies counts_its_cases(#[trigger] after[k]) by {
            if n > 1 && cases[n - 2].package == cases[n - 1].package {
                assert(counts_its_cases(before[k]));
                if k == before.len() - 1 {
                    lemma_filter_push(before[k].cases, content, Outcome::Failure);
                    lemma_filter_push(before[k].cases, content, Outcome::Skipped);
                }
            } else if k < before.len() {
                assert(counts_its_cases(before[k]));
            } else {
                reveal(Seq::filter);
                lemma_filter_push(none, content, Outcome::Failure);
                lemma_filter_push(none, content, Outcome::Skipped);
                assert(none.push(content) =~= seq![content]);
            }
        }
    }
}

/// What a suite counts is what its cases are.
pub proof fn law_suites_count_their_cases(cases: Seq<CaseView>, k: int)
    requires
        0 <= k < report_of(cases).suites.len(),
    ensures
        counts_its_cases(report_of(cases).suites[k]),
        ({
            let suite = report_of(cases).suites[k];
            &&& suite.cases.len() > 0
            &&& suite.counts.tests == suite.cases.len()
            &&& suite.counts.failures == suite.cases.filter(
                |case: CaseContent| case.status.outcome == Outcome::Failure,
            ).len()
            &&& suite.counts.skipped == suite.cases.filter(
                |case: CaseContent| case.status.outcome == Outcome::Skipped,
            ).len()
        }),
{
    lemma_suite_counts(cases, cases.len() as int);
    lemma_all_cases(cases, cases.len() as int);
}

/// What an event of a test does: its case ends with the event's action where that is
/// `pass`, `fail` or `skip`, took the time that the event says, and wrote more by what the
/// event says. Every other case stays as it was.
pub proof fn law_test_events_change_their_case(run: RunView, event: EventView, k: int)
    requires
        in_order(run.cases),
        event.test is Some,
    ensures
        ({
            let test = event.test->0;
            let after = run_after(run, event).cases;
            let own = |case: CaseView| case.package == event.package && case.name == test;
            let ends = event.action == "pass"@ || event.action == "fail"@ || event.action == "skip"@;
            &&& run_after(run, event).outputs == run.outputs
            &&& run_after(run, event).failed == run.failed
            &&& exists|i: int| 0 <= i < after.len() && own(#[trigger] after[i])
            &&& 0 <= k < after.len() && own(after[k]) ==> {
                &&& ends ==> after[k].action == event.action
                &&& event.elapsed is Some ==> after[k].elapsed == event.elapsed
                &&& (exists|i: int|
                    0 <= i < run.cases.len() && own(#[trigger] run.cases[i]) && after[k].output
                        == run.cases[i].output + (match event.output {
                        Some(text) => text,
                        None => Seq::empty(),
                    }) && (ends || after[k].action == run.cases[i].action) && (event.elapsed is Some
                        || after[k].elapsed == run.cases[i].elapsed)) || (after[k].output == (
                match event.output {
                    Some(text) => text,
                    None => Seq::empty(),
                }) && (ends || after[k].action == Seq::<char>::empty()) && (event.elapsed is Some
                    || after[k].elapsed is None) && forall|i: int|
                    0 <= i < run.cases.len() ==> !own(#[trigger] run.cases[i]))
            }
            &&& 0 <= k < after.len() && !own(after[k]) ==> run.cases.contains(after[k])
            &&& 0 <= k < run.cases.len() && !own(run.cases[k]) ==> after.contains(run.cases[k])
        }),
{
    let test = event.test->0;
    let cases = run.cases;
    let at = slot(cases, event.package, test, 0);
    let after = run_after(run, event).cases;
    lemma_slot(cases, event.package, test, 0);
    let more = match event.output {
        Some(text) => text,
        None => Seq::empty(),
    };
    if at < cases.len() && is_case(cases[at], event.package, test) {
        assert(is_case(after[at], event.package, test));
        assert(cases[at].output + Seq::<char>::empty() =~= cases[at].output);
        if 0 <= k < after.len() && is_case(after[k], event.package, test) && k != at {
            let (i, j) = if k < at {
                (k, at)
            } else {
                (at, k)
            };
            assert(case_before(cases[i], cases[j].package, cases[j].name));
            lemma_not_before_itself(test);
        }
        if 0 <= k < after.len() && k != at {
            assert(after[k] == cases[k]);
        }
        if 0 <= k < cases.len() && k != at {
            assert(after[k] == cases[k]);
        }
        assert(is_case(cases[at], event.package, test));
    } else {
        let fresh = case_after(blank(event.package, test), event);
        assert(after[at] == fresh);
        assert(Seq::<char>::empty() + more =~= more);
        assert forall|i: int| 0 <= i < cases.len() implies !is_case(
            #[trigger] cases[i],
            event.package,
            test,
        ) by {
            if is_case(cases[i], event.package, test) {
                lemma_not_before_itself(test);
                if i > at {
                    assert(case_before(cases[at], cases[i].package, cases[i].name));
                } else if i < at {
                    assert(case_before(cases[i], event.package, test));
                }
            }
        }
        if 0 <= k < after.len() && k != at {
            let j = if k < at {
                k
            } else {
                k - 1
            };
            assert(after[k] == cases[j]);
        }
        if 0 <= k < cases.len() {
            let j = if k < at {
                k
            } else {
                k + 1
            };
            assert(after[j] == cases[k]);
        }
    }
}

/// A text does not come before itself.
proof fn lemma_not_before_itself(text: Seq<char>)
    ensures
        !text_before(text, text),
    decreases text.len(),
{
    if text.len() > 0 {
        lemma_not_before_itself(text.drop_first());
    }
}

/// Texts are ordered by the first character in which they differ, and a text comes before
/// every longer one that it begins.
pub proof fn law_texts_are_ordered(a: Seq<char>, b: Seq<char>, common: int)
    requires
        0 <= common <= a.len(),
        common <= b.len(),
        a.take(common) == b.take(common),
    ensures
        common < a.len() && common < b.len() && (a[common] as int) < (b[common] as int)
            ==> text_before(a, b) && !text_before(b, a),
        common == a.len() && common < b.len() ==> text_before(a, b) && !text_before(b, a),
        a == b ==> !text_before(a, b),
    decreases common,
{
    lemma_not_before_itself(a);
    if common > 0 {
        assert(a[0] == a.take(common)[0] && b[0] == b.take(common)[0]);
        assert(a.drop_first().take(common - 1) =~= a.take(common).drop_first());
        assert(b.drop_first().take(common - 1) =~= b.take(common).drop_first());
        law_texts_are_ordered(a.drop_first(), b.drop_first(), common - 1);
    }
}

/// What an event of a package does outside of its tests: what it says is added to what its
/// package wrote where the action is `output`, `fail` or `build-output`, and its package
/// is a failed one where the action is `fail` or `build-fail`. No case changes, and
/// nothing of another package.
pub proof fn law_package_events_change_their_package(
    run: RunView,
    event: EventView,
    package: Seq<char>,
)
    requires
        event.test is None,
    ensures
        ({
            let after = run_after(run, event);
            let fails = event.action == "fail"@ || event.action == "build-fail"@;
            let writes = event.action == "output"@ || event.action == "fail"@ || event.action
                == "build-output"@;
            let said = match event.output {
                Some(text) => text,
                None => Seq::empty(),
            };
            &&& after.cases == run.cases
            &&& after.failed.contains(package) <==> run.failed.contains(package) || (fails && package
                == package_of(event))
            &&& !writes ==> after.outputs == run.outputs
            &&& written(after.outputs, package) == if writes && package == package_of(event) {
                Some(
                    (match written(run.outputs, package) {
                        Some(text) => text,
                        None => Seq::empty(),
                    }) + said,
                )
            } else {
                written(run.outputs, package)
            }
        }),
{
    let after = run_after(run, event);
    let own = package_of(event);
    let said = match event.output {
        Some(text) => text,
        None => Seq::empty(),
    };
    assert forall|p: Seq<char>| with_failed(run.failed, own).contains(p) <==> (run.failed.contains(p)
        || p == own) by {
        if !run.failed.contains(own) {
            let grown = run.failed.push(own);
            assert(grown[run.failed.len() as int] == own);
            if run.failed.contains(p) {
                let i = choose|i: int| 0 <= i < run.failed.len() && run.failed[i] == p;
                assert(grown[i] == p);
            }
        }
    }
    lemma_written(run.outputs, package, 0);
    lemma_with_output(run.outputs, own, said, package, 0);
    assert(Seq::<char>::empty() + said =~= said);
}

/// What a package wrote, if it wrote anything: the first entry of its own.
pub open spec fn written(outputs: Seq<OutputView>, package: Seq<char>) -> Option<Seq<char>>
    decreases outputs.len(),
{
    if outputs.len() == 0 {
        None
    } else if outputs[0].package == package {
        Some(outputs[0].output)
    } else {
        written(outputs.drop_first(), package)
    }
}

proof fn lemma_written(outputs: Seq<OutputView>, package: Seq<char>, from: int)
    requires
        0 <= from <= outputs.len(),
    ensures
        from <= output_slot(outputs, package, from) <= outputs.len(),
        written(outputs.skip(from), package) == if output_slot(outputs, package, from)
            < outputs.len() {
            Some(outputs[output_slot(outputs, package, from)].output)
        } else {
            None
        },
        output_slot(outputs, package, from) < outputs.len() ==> outputs[output_slot(
            outputs,
            package,
            from,
        )].package == package,
        from == 0 ==> outputs.skip(0) == outputs,
    decreases outputs.len() - from,
{
    assert(outputs.skip(0) =~= outputs);
    if from < outputs.len() && outputs[from].package != package {
        lemma_written(outputs, package, from + 1);
        assert(outputs.skip(from).drop_first() =~= outputs.skip(from + 1));
    }
}

proof fn lemma_with_output(
    outputs: Seq<OutputView>,
    own: Seq<char>,
    said: Seq<char>,
    package: Seq<char>,
    from: int,
)
    requires
        0 <= from <= outputs.len(),
    ensures
        written(with_output(outputs, own, said).skip(from), package) == if package == own && from
            <= output_slot(outputs, own, 0) {
            Some(
                (match written(outputs.skip(from), package) {
                    Some(text) => text,
                    None => Seq::empty(),
                }) + said,
            )
        } else {
            written(outputs.skip(from), package)
        } || (package == own && from > output_slot(outputs, own, 0)),
        from == 0 ==> with_output(outputs, own, said).skip(0) == with_output(outputs, own, said),
    decreases outputs.len() - from,
{
    let at = output_slot(outputs, own, 0);
    let after = with_output(outputs, own, said);
    lemma_written(outputs, own, 0);
    lemma_before_slot(outputs, own, 0);
    assert(after.skip(0) =~= after);
    if from < outputs.len() {
        lemma_with_output(outputs, own, said, package, from + 1);
        assert(after.skip(from).drop_first() =~= after.skip(from + 1));
        assert(outputs.skip(from).drop_first() =~= outputs.skip(from + 1));
        assert(after.skip(from)[0] == after[from]);
        assert(outputs.skip(from)[0] == outputs[from]);
    } else {
        assert(outputs.skip(from) =~= Seq::empty());
        assert(Seq::<char>::empty() + said =~= said);
        if at < outputs.len() {
            assert(after.skip(from) =~= Seq::empty());
        } else {
            assert(after.skip(from) =~= seq![OutputView { package: own, output: said }]);
            assert(after.skip(from).drop_first() =~= Seq::empty());
        }
    }
}

proof fn lemma_before_slot(outputs: Seq<OutputView>, package: Seq<char>, from: int)
    requires
        0 <= from <= outputs.len(),
    ensures
        forall|i: int|
            from <= i < output_slot(outputs, package, from) && i < outputs.len() ==> (
            #[trigger] outputs[i]).package != package,
    decreases outputs.len() - from,
{
    if from < outputs.len() && outputs[from].package != package {
        lemma_before_slot(outputs, package, from + 1);
    }
}

/// The package of an event is the one it names. Where it names none, it is what its import
/// path says in front of the first space with an opening bracket behind it, or all of it.
pub proof fn law_packages_are_named(event: EventView, i: int)
    ensures
        event.package.len() > 0 ==> package_of(event) == event.package,
        event.package.len() == 0 && event.import_path is None ==> package_of(event).len() == 0,
        event.package.len() == 0 && event.import_path is Some ==> {
            let path = event.import_path->0;
            let named = package_of(event);
            &&& named.len() <= path.len()
            &&& named == path.take(named.len() as int)
            &&& named.len() < path.len() ==> named.len() + 1 < path.len() && path[named.len() as int]
                == ' ' && path[(named.len() + 1) as int] == '['
            &&& 0 <= i && i < named.len() && i + 1 < path.len() ==> !(path[i] == ' ' && path[i + 1]
                == '[')
        },
{
    if let Some(path) = event.import_path {
        lemma_bracket(path, 0, i);
    }
}

proof fn lemma_bracket(text: Seq<char>, from: int, i: int)
    requires
        0 <= from <= text.len(),
    ensures
        from <= bracket_at(text, from) <= text.len(),
        bracket_at(text, from) < text.len() ==> bracket_at(text, from) + 1 < text.len()
            && text[bracket_at(text, from)] == ' ' && text[bracket_at(text, from) + 1] == '[',
        from <= i < bracket_at(text, from) && i + 1 < text.len() ==> !(text[i] == ' ' && text[i + 1]
            == '['),
    decreases text.len() - from,
{
    if from + 1 < text.len() && !(text[from] == ' ' && text[from + 1] == '[') {
        lemma_bracket(text, from + 1, i);
    }
}

/// The cases that are reported are those of the run, and one failed case called
/// `package build`, with what the package wrote, for packages that failed and have none.
pub proof fn law_only_failed_builds_are_added(run: RunView, i: int)
    ensures
        0 <= i < run.cases.len() ==> reported(run).contains(run.cases[i]),
        0 <= i < reported(run).len() ==> run.cases.contains(reported(run)[i]) || ({
            let case = reported(run)[i];
            &&& case.name == "package build"@
            &&& case.action == "fail"@
            &&& case.elapsed is None
            &&& run.failed.contains(case.package)
            &&& run.outputs.contains(OutputView { package: case.package, output: case.output })
            &&& forall|k: int|
                0 <= k < run.cases.len() ==> (#[trigger] run.cases[k]).package != case.package
        }),
{
    lemma_builds(run, run.outputs.len() as int, i);
}

proof fn lemma_builds(run: RunView, n: int, i: int)
    requires
        0 <= n <= run.outputs.len(),
    ensures
        0 <= i < run.cases.len() ==> with_builds(run, n).contains(run.cases[i]),
        0 <= i < with_builds(run, n).len() ==> run.cases.contains(with_builds(run, n)[i]) || ({
            let case = with_builds(run, n)[i];
            &&& case.name == "package build"@
            &&& case.action == "fail"@
            &&& case.elapsed is None
            &&& run.failed.contains(case.package)
            &&& run.outputs.contains(OutputView { package: case.package, output: case.output })
            &&& forall|k: int|
                0 <= k < run.cases.len() ==> (#[trigger] run.cases[k]).package != case.package
        }),
    decreases n,
{
    if n > 0 {
        lemma_builds(run, n - 1, i);
        let cases = with_builds(run, n - 1);
        let after = with_builds(run, n);
        let output = run.outputs[n - 1];
        let at = slot(cases, output.package, "package build"@, 0);
        lemma_slot(cases, output.package, "package build"@, 0);
        if run.failed.contains(output.package) && !has_case(cases, output.package) {
            if 0 <= i < run.cases.len() {
                let j = choose|j: int| 0 <= j < cases.len() && cases[j] == run.cases[i];
                assert(after[if j < at {
                    j
                } else {
                    j + 1
                }] == run.cases[i]);
            }
            if 0 <= i < after.len() {
                if i == at {
                    let case = after[i];
                    assert(case == build_case(output));
                    assert(OutputView { package: case.package, output: case.output } == output);
                    assert forall|k: int| 0 <= k < run.cases.len() implies (
                    #[trigger] run.cases[k]).package != case.package by {
                        lemma_builds(run, n - 1, k);
                        let j = choose|j: int| 0 <= j < cases.len() && cases[j] == run.cases[k];
                        assert(cases[j].package != output.package);
                    }
                } else {
                    let j = if i < at {
                        i
                    } else {
                        i - 1
                    };
                    lemma_builds(run, n - 1, j);
                    assert(after[i] == cases[j]);
                }
            }
        }
    } else if 0 <= i < run.cases.len() {
        assert(with_builds(run, 0)[i] == run.cases[i]);
    }
}

/// A run starts without cases, and its events are taken in one after the other.
pub proof fn law_events_are_taken_in_order(events: Seq<GoEvent>, n: int)
    requires
        0 <= n < events.len(),
    ensures
        run_of(events, 0).cases.len() == 0,
        run_of(events, 0).outputs.len() == 0,
        run_of(events, 0).failed.len() == 0,
        run_of(events, n + 1) == run_after(run_of(events, n), events[n]@),
{
}

/// One failed case fails the run, wherever it is, and without one the run did not fail.
pub proof fn law_any_failed_case_fails_the_run(cases: Seq<CaseView>, i: int)
    requires
        0 <= i < cases.len(),
    ensures
        cases[i].action == "fail"@ ==> any_failed(cases),
        (forall|k: int| 0 <= k < cases.len() ==> (#[trigger] cases[k]).action != "fail"@)
            ==> !any_failed(cases),
        !any_failed(Seq::empty()),
{
}

/// An event is seen with its own fields.
pub proof fn law_events_are_seen(event: GoEvent)
    ensures
        event@.action == event.action@,
        event@.package == event.package@,
        event.import_path is None ==> event@.import_path is None,
        event.import_path matches Some(text) ==> event@.import_path == Some(text@),
        event.test is None ==> event@.test is None,
        event.test matches Some(text) ==> event@.test == Some(text@),
        event@.elapsed == event.elapsed,
        event.output is None ==> event@.output is None,
        event.output matches Some(text) ==> event@.output == Some(text@),
{
}

proof fn lemma_builds_in_order(run: RunView, n: int)
    requires
        in_order(run.cases),
        0 <= n <= run.outputs.len(),
    ensures
        in_order(with_builds(run, n)),
    decreases n,
{
    if n > 0 {
        lemma_builds_in_order(run, n - 1);
        let cases = with_builds(run, n - 1);
        let output = run.outputs[n - 1];
        if run.failed.contains(output.package) && !has_case(cases, output.package) {
            let at = slot(cases, output.package, "package build"@, 0);
            lemma_slot(cases, output.package, "package build"@, 0);
            if at < cases.len() {
                assert(cases[at].package != output.package);
            }
            lemma_insert_keeps_order(cases, build_case(output));
        }
    }
}

proof fn lemma_runs_in_order(events: Seq<GoEvent>, n: int)
    requires
        0 <= n <= events.len(),
    ensures
        in_order(run_of(events, n).cases),
    decreases n,
{
    if n > 0 {
        lemma_runs_in_order(events, n - 1);
        law_cases_stay_in_order(run_of(events, n - 1), events[n - 1]@);
    }
}

/// The cases that are reported of any events come by their packages and, within a
/// package, by their names, each of them once.
pub proof fn law_reported_cases_are_sorted(events: Seq<GoEvent>, i: int, j: int)
    requires
        0 <= i < j < reported(run_of(events, events.len() as int)).len(),
    ensures
        ({
            let first = reported(run_of(events, events.len() as int))[i];
            let second = reported(run_of(events, events.len() as int))[j];
            text_before(first.package, second.package) || (first.package == second.package
                && text_before(first.name, second.name))
        }),
{
    let run = run_of(events, events.len() as int);
    lemma_runs_in_order(events, events.len() as int);
    lemma_builds_in_order(run, run.outputs.len() as int);
    let cases = reported(run);
    assert(case_before(cases[i], cases[j].package, cases[j].name));
}

/// All cases of suites are those of the first, of the second, and so on.
pub proof fn law_cases_follow_their_suites(suites: Seq<SuiteContent>)
    ensures
        all_cases(suites) == Seq::new(suites.len(), |k: int| suites[k].cases).flatten_alt(),
        all_names(suites) == Seq::new(
            suites.len(),
            |k: int| Seq::new(suites[k].cases.len(), |i: int| suites[k].name),
        ).flatten_alt(),
    decreases suites.len(),
{
    let lists = Seq::new(suites.len(), |k: int| suites[k].cases);
    let names = Seq::new(
        suites.len(),
        |k: int| Seq::new(suites[k].cases.len(), |i: int| suites[k].name),
    );
    if suites.len() > 0 {
        let front = suites.drop_last();
        law_cases_follow_their_suites(front);
        assert(lists.drop_last() =~= Seq::new(front.len(), |k: int| front[k].cases));
        assert(names.drop_last() =~= Seq::new(
            front.len(),
            |k: int| Seq::new(front[k].cases.len(), |i: int| front[k].name),
        ));
    }
}

proof fn lemma_number_of_suites(cases: Seq<CaseView>, n: int)
    requires
        0 <= n <= cases.len(),
    ensures
        suites_of(cases, n).len() == Seq::new(
            n as nat,
            |i: int| i == 0 || cases[i].package != cases[i - 1].package,
        ).filter(|starts: bool| starts).len(),
        n > 0 ==> suites_of(cases, n).len() > 0,
    decreases n,
{
    reveal(Seq::filter);
    if n > 0 {
        lemma_number_of_suites(cases, n - 1);
        let starts = Seq::new(
            n as nat,
            |i: int| i == 0 || cases[i].package != cases[i - 1].package,
        );
        assert(starts.drop_last() =~= Seq::new(
            (n - 1) as nat,
            |i: int| i == 0 || cases[i].package != cases[i - 1].package,
        ));
        assert(starts.last() == (n == 1 || cases[n - 1].package != cases[n - 2].package));
    }
}

/// There is one suite for each run of cases of one package, and the report is named
/// after the tool.
pub proof fn law_packages_are_suites(cases: Seq<CaseView>)
    ensures
        report_of(cases).suites.len() == Seq::new(
            cases.len(),
            |i: int| i == 0 || cases[i].package != cases[i - 1].package,
        ).filter(|starts: bool| starts).len(),
        report_of(cases).name == xml_text("go test"@),
{
    lemma_number_of_suites(cases, cases.len() as int);
}

/// What a package wrote is what stands first under its name.
pub proof fn law_the_first_entry_of_a_package_counts(
    outputs: Seq<OutputView>,
    package: Seq<char>,
    at: int,
)
    requires
        0 <= at <= outputs.len(),
        forall|i: int| 0 <= i < at ==> (#[trigger] outputs[i]).package != package,
    ensures
        at == outputs.len() ==> written(outputs, package) is None,
        at < outputs.len() && outputs[at].package == package ==> written(outputs, package) == Some(
            outputs[at].output,
        ),
    decreases at,
{
    if at > 0 {
        let rest = outputs.drop_first();
        assert(outputs[0].package != package);
        assert forall|i: int| 0 <= i < at - 1 implies (#[trigger] rest[i]).package != package by {
            assert(rest[i] == outputs[i + 1]);
        }
        law_the_first_entry_of_a_package_counts(rest, package, at - 1);
    }
}

proof fn lemma_counted_cases(cases: Seq<CaseView>, n: int, action: Seq<char>)
    requires
        0 <= n <= cases.len(),
    ensures
        number_with(cases, n, action) == cases.take(n).filter(
            |case: CaseView| case.action == action,
        ).len(),
    decreases n,
{
    reveal(Seq::filter);
    if n > 0 {
        lemma_counted_cases(cases, n - 1, action);
        assert(cases.take(n).drop_last() =~= cases.take(n - 1));
        assert(cases.take(n).last() == cases[n - 1]);
    }
}

/// The report counts its cases, those that failed and those that were skipped.
pub proof fn law_reports_count_their_cases(cases: Seq<CaseView>)
    ensures
        report_of(cases).counts.tests == cases.len(),
        report_of(cases).counts.failures == cases.filter(
            |case: CaseView| case.action == "fail"@,
        ).len(),
        report_of(cases).counts.skipped == cases.filter(
            |case: CaseView| case.action == "skip"@,
        ).len(),
{
    lemma_counted_cases(cases, cases.len() as int, "fail"@);
    lemma_counted_cases(cases, cases.len() as int, "skip"@);
    assert(cases.take(cases.len() as int) =~= cases);
}

/// A test is counted once, and as failed or skipped where it was; counts of two lists add
/// up.
pub proof fn law_counts_add_up(counts: Counts, more: Counts, outcome: Outcome)
    ensures
        no_counts().tests == 0 && no_counts().failures == 0 && no_counts().skipped == 0,
        counted(counts, outcome).tests == counts.tests + 1,
        counted(counts, outcome).failures == counts.failures + if outcome == Outcome::Failure {
            1int
        } else {
            0
        },
        counted(counts, outcome).skipped == counts.skipped + if outcome == Outcome::Skipped {
            1int
        } else {
            0
        },
        counted_together(counts, more).tests == counts.tests + more.tests,
        counted_together(counts, more).failures == counts.failures + more.failures,
        counted_together(counts, more).skipped == counts.skipped + more.skipped,
{
}

/// Cases are in order where each comes before those behind it, by its package or, in one
/// package, by its name.
pub proof fn law_order_of_cases(cases: Seq<CaseView>)
    ensures
        in_order(cases) <==> forall|i: int, j: int|
            #![trigger cases[i], cases[j]]
            0 <= i < j < cases.len() ==> text_before(cases[i].package, cases[j].package) || (
            cases[i].package == cases[j].package && text_before(cases[i].name, cases[j].name)),
{
    if forall|i: int, j: int|
        #![trigger cases[i], cases[j]]
        0 <= i < j < cases.len() ==> text_before(cases[i].package, cases[j].package) || (
        cases[i].package == cases[j].package && text_before(cases[i].name, cases[j].name)) {
        assert forall|i: int, j: int| 0 <= i < j < cases.len() implies case_before(
            #[trigger] cases[i],
            (#[trigger] cases[j]).package,
            cases[j].name,
        ) by {
            lemma_not_before_itself(cases[i].package);
        }
    }
    if in_order(cases) {
        assert forall|i: int, j: int|
            #![trigger cases[i], cases[j]]
            0 <= i < j < cases.len() implies text_before(cases[i].package, cases[j].package) || (
        cases[i].package == cases[j].package && text_before(cases[i].name, cases[j].name)) by {
            assert(case_before(cases[i], cases[j].package, cases[j].name));
        }
    }
}

} // verus!
