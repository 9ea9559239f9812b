//! The tool that copies the largest preview out of a photograph.
use crate::arw::error::{Error, Fault};
use crate::arw::parser;
use crate::arw::parser::{EmbeddedPreview, PreviewReader, Scan};
use crate::arw::source::ByteSource;
use crate::bench::args;
use crate::bench::args::{Argument, Stage, Word};
use crate::path;
use crate::path::{same_ignoring_case, PhotoPath};
use crate::text;
use vstd::prelude::*;

verus! {

/// What the tool is asked to do.
#[derive(Debug)]
pub struct Args {
    pub input: PhotoPath,
    pub output: PhotoPath,
    /// All previews are to be listed.
    pub list: bool,
}

/// Why there is nothing to do.
#[derive(Debug)]
pub enum Refusal {
    /// Usage is asked for.
    Help,
    /// There are not two paths.
    Usage,
    Error(String),
}

/// What was read so far.
pub struct Wish {
    pub paths: Seq<Seq<u8>>,
    pub list: bool,
    /// Only paths come any more.
    pub positional: bool,
}

/// Why nothing is done.
pub enum Denial {
    Help,
    Usage,
    Error(Seq<char>),
}

impl View for Refusal {
    type V = Denial;

    open spec fn view(&self) -> Denial {
        match self {
            Refusal::Help => Denial::Help,
            Refusal::Usage => Denial::Usage,
            Refusal::Error(error) => Denial::Error(error@),
        }
    }
}

/// Whether a path names a JPEG.
pub open spec fn is_jpeg(p: Seq<u8>) -> bool {
    match path::extension_of(p) {
        Some(extension) => path::same_but_case(extension, seq![0x6au8, 0x70, 0x67])
            || path::same_but_case(extension, seq![0x6au8, 0x70, 0x65, 0x67]),
        None => false,
    }
}

impl Wish {
    pub open spec fn with_path(self, i: int, word: Word) -> Stage<Wish> {
        Stage::Next(i + 1, Wish { paths: self.paths.push(word.place()), ..self })
    }

    /// After a word.
    pub open spec fn with_word(self, words: Seq<Word>, i: int) -> Stage<Wish> {
        let word = words[i];
        match word {
            Word::Raw(_) => self.with_path(i, word),
            Word::Text(t) => if self.positional {
                self.with_path(i, word)
            } else if t == "--help"@ || t == "-h"@ {
                Stage::Help
            } else if t == "--list"@ {
                Stage::Next(i + 1, Wish { list: true, ..self })
            } else if t == "--"@ {
                Stage::Next(i + 1, Wish { positional: true, ..self })
            } else if word.dashed() {
                Stage::Fail("unknown option "@ + t)
            } else {
                self.with_path(i, word)
            },
        }
    }

    /// What is asked for, from a word on.
    pub open spec fn read(self, words: Seq<Word>, i: int) -> Result<Wish, Denial>
        decreases words.len() - i,
    {
        if i >= words.len() || i < 0 {
            if self.paths.len() != 2 {
                Err(Denial::Usage)
            } else if !is_jpeg(self.paths[1]) {
                Err(Denial::Error("output must have .jpg or .jpeg extension"@))
            } else {
                Ok(self)
            }
        } else {
            match self.with_word(words, i) {
                Stage::Help => Err(Denial::Help),
                Stage::Fail(error) => Err(Denial::Error(error)),
                Stage::Next(n, wish) => if n > i {
                    wish.read(words, n)
                } else {
                    Err(Denial::Help)
                },
            }
        }
    }
}

/// What is done unless something else is asked for.
pub open spec fn defaults() -> Wish {
    Wish { paths: Seq::empty(), list: false, positional: false }
}

fn names_jpeg(p: &PhotoPath) -> (out: bool)
    ensures
        out == is_jpeg(p.raw()),
{
    let jpg: Vec<u8> = vec![0x6a, 0x70, 0x67];
    let jpeg: Vec<u8> = vec![0x6a, 0x70, 0x65, 0x67];
    assert(jpg@ =~= seq![0x6au8, 0x70, 0x67]);
    assert(jpeg@ =~= seq![0x6au8, 0x70, 0x65, 0x67]);
    match p.extension() {
        Some(extension) => same_ignoring_case(&extension, &jpg) || same_ignoring_case(
            &extension,
            &jpeg,
        ),
        None => false,
    }
}

impl Args {
    /// Reads the command line.
    pub fn parse(arguments: &Vec<Argument>) -> (out: Result<Self, Refusal>)
        ensures
            match defaults().read(args::said(arguments@), 0) {
                Ok(wish) => out matches Ok(given) && given.input.raw() == wish.paths[0]
                    && given.output.raw() == wish.paths[1] && given.list == wish.list,
                Err(denial) => out is Err && out->Err_0@ == denial,
            },
    {
        let ghost words = args::said(arguments@);
        let ghost want = defaults().read(words, 0);
        let mut paths: Vec<PhotoPath> = Vec::new();
        let mut list = false;
        let mut positional = false;
        let mut i: usize = 0;
        assert(path::spellings(paths@) =~= Seq::<Seq<u8>>::empty());
        while i < arguments.len()
            invariant
                i <= arguments@.len(),
                words == args::said(arguments@),
                want == defaults().read(words, 0),
                want == (Wish { paths: path::spellings(paths@), list, positional }).read(
                    words,
                    i as int,
                ),
            decreases arguments@.len() - i,
        {
            let argument = &arguments[i];
            assert(words[i as int] == argument@);
            if !positional {
                if argument.is("--help") || argument.is("-h") {
                    return Err(Refusal::Help);
                }
                if argument.is("--list") {
                    list = true;
                    i += 1;
                    continue;
                }
                if argument.is("--") {
                    positional = true;
                    i += 1;
                    continue;
                }
                match argument {
                    Argument::Text(t) => {
                        if argument.is_dashed() {
                            return Err(
                                Refusal::Error("unknown option ".to_owned().concat(t.as_str())),
                            );
                        }
                    },
                    Argument::Raw(_) => {},
                }
            }
            let ghost before = path::spellings(paths@);
            paths.push(argument.path());
            assert(path::spellings(paths@) =~= before.push(argument@.place()));
            i += 1;
        }
        if paths.len() != 2 {
            return Err(Refusal::Usage);
        }
        if !names_jpeg(&paths[1]) {
            return Err(
                Refusal::Error("output must have .jpg or .jpeg extension".to_owned()),
            );
        }
        let ghost both = path::spellings(paths@);
        assert(both[0] == paths@[0].raw() && both[1] == paths@[1].raw());
        match (paths.pop(), paths.pop()) {
            (Some(output), Some(input)) => Ok(Args { input, output, list }),
            _ => Err(Refusal::Usage),
        }
    }
}

/// What is said of access that is refused.
pub open spec fn advice() -> Seq<char> {
    "\nmacOS denied access to the input. Check System Settings > Privacy & Security > Files & Folders for the terminal app running this command, and enable access to the input's location (for example, Desktop Folder). Then quit and reopen that terminal app."@
}

/// Whether a failure is refused access.
pub open spec fn forbidden(fault: Fault) -> bool {
    match fault {
        Fault::Io { code, denied, .. } => denied || code == Some(1i32) || code == Some(13i32),
        _ => false,
    }
}

/// What is said of an input that cannot be used.
pub fn input_error(operation: &str, input: &PhotoPath, error: &Error) -> (out: String)
    ensures
        out@ == operation@ + " '"@ + text::lossy_text(input.raw()) + "': "@ + error@.text() + (
        if forbidden(error@) {
            advice()
        } else {
            Seq::empty()
        }),
{
    let mut out = operation.to_owned();
    out.append(" '");
    out.append(input.display().as_str());
    out.append("': ");
    out.append(error.message().as_str());
    let denied = match error {
        Error::Io(failure) => failure.denied || failure.code == Some(1i32) || failure.code == Some(
            13i32,
        ),
        _ => false,
    };
    if denied {
        out.append(
            "\nmacOS denied access to the input. Check System Settings > Privacy & Security > Files & Folders for the terminal app running this command, and enable access to the input's location (for example, Desktop Folder). Then quit and reopen that terminal app.",
        );
    }
    out
}

/// What is said of a preview.
pub open spec fn description(p: EmbeddedPreview, i: int) -> Seq<char> {
    "candidate "@ + text::decimal(i + 1) + ": "@ + text::decimal(
        match p.width {
            Some(w) => w as int,
            None => 0,
        },
    ) + "x"@ + text::decimal(
        match p.height {
            Some(h) => h as int,
            None => 0,
        },
    ) + " offset="@ + text::decimal(p.offset as int) + " length="@ + text::decimal(p.length as int)
}

/// A line on the preview at a place of a list.
pub fn describe(p: &EmbeddedPreview, i: usize) -> (out: String)
    requires
        i < usize::MAX,
    ensures
        out@ == description(*p, i as int),
{
    let mut out = "candidate ".to_owned();
    text::append_number(&mut out, (i + 1) as u64);
    out.append(": ");
    text::append_number(
        &mut out,
        match p.width {
            Some(w) => w as u64,
            None => 0,
        },
    );
    out.append("x");
    text::append_number(
        &mut out,
        match p.height {
            Some(h) => h as u64,
            None => 0,
        },
    );
    out.append(" offset=");
    text::append_number(&mut out, p.offset);
    out.append(" length=");
    text::append_number(&mut out, p.length);
    out
}

/// What the first `n` previews give, one after the other, to a buffer of `held`
/// bytes that every failure leaves empty. `answers` is what the allocator says to
/// each.
pub open spec fn tried<R: ByteSource>(
    scan: Scan,
    source: R,
    size: u64,
    previews: Seq<EmbeddedPreview>,
    held: nat,
    answers: Seq<bool>,
    n: int,
) -> (Scan, Seq<Result<Seq<u8>, Fault>>)
    decreases n,
{
    if n <= 0 {
        (scan, Seq::empty())
    } else {
        let (before, given) = tried(scan, source, size, previews, held, answers, n - 1);
        let (after, last) = parser::delivered(
            before,
            source,
            size,
            previews[n - 1],
            if n == 1 {
                held
            } else {
                0
            },
            answers[n - 1],
        );
        (after, given.push(last))
    }
}

/// What comes of a list of previews: the place of the first that could be read, the
/// reasons of those before it, and the bytes.
pub open spec fn chosen(
    out: (Option<usize>, Vec<Error>),
    bytes: Seq<u8>,
    previews: Seq<EmbeddedPreview>,
    given: Seq<Result<Seq<u8>, Fault>>,
) -> bool {
    let passed = out.1@.len();
    &&& forall|k: int|
        0 <= k < passed ==> given[k] == Err::<Seq<u8>, Fault>((#[trigger] out.1@[k])@)
    &&& match out.0 {
        Some(i) => {
            &&& i < previews.len()
            &&& passed == i
            &&& given.len() == i + 1
            &&& given[i as int] == Ok::<Seq<u8>, Fault>(bytes)
        },
        None => {
            &&& passed == previews.len()
            &&& given.len() == passed
            &&& passed > 0 ==> bytes.len() == 0
        },
    }
}

proof fn lemma_tried<R: ByteSource>(
    scan: Scan,
    source: R,
    size: u64,
    previews: Seq<EmbeddedPreview>,
    held: nat,
    answers: Seq<bool>,
    more: bool,
    n: int,
)
    requires
        0 <= n <= answers.len(),
    ensures
        tried(scan, source, size, previews, held, answers.push(more), n) == tried(
            scan,
            source,
            size,
            previews,
            held,
            answers,
            n,
        ),
        tried(scan, source, size, previews, held, answers, n).1.len() == n,
    decreases n,
{
    if n > 0 {
        lemma_tried(scan, source, size, previews, held, answers, more, n - 1);
    }
}

/// Reads the first preview that can be read, and says which one it is. Those
/// before it are passed over, with the reason; memory may be a reason, too, for a
/// preview that may be read and is longer than the buffer.
pub fn read_first<R: ByteSource>(
    reader: &mut PreviewReader<R>,
    previews: &Vec<EmbeddedPreview>,
    jpeg: &mut Vec<u8>,
) -> (out: (Option<usize>, Vec<Error>))
    ensures
        final(reader).same_file(old(reader)),
        exists|answers: Seq<bool>|
            {
                let (scan, given) = #[trigger] tried(
                    old(reader).scan(),
                    old(reader).origin(),
                    old(reader).size(),
                    previews@,
                    old(jpeg)@.len(),
                    answers,
                    answers.len() as int,
                );
                final(reader).scan() == scan && chosen(out, final(jpeg)@, previews@, given)
            },
{
    let ghost scan = reader.scan();
    let ghost held = jpeg@.len();
    let ghost mut answers: Seq<bool> = Seq::empty();
    let mut errors: Vec<Error> = Vec::new();
    let mut i: usize = 0;
    while i < previews.len()
        invariant
            i <= previews@.len(),
            errors@.len() == i,
            answers.len() == i,
            scan == old(reader).scan(),
            held == old(jpeg)@.len(),
            reader.same_file(old(reader)),
            i > 0 ==> jpeg@.len() == 0,
            i == 0 ==> jpeg@.len() == held,
            ({
                let (now, given) = tried(
                    scan,
                    old(reader).origin(),
                    old(reader).size(),
                    previews@,
                    held,
                    answers,
                    i as int,
                );
                &&& reader.scan() == now
                &&& given.len() == i
                &&& forall|k: int|
                    0 <= k < i ==> given[k] == Err::<Seq<u8>, Fault>((#[trigger] errors@[k])@)
            }),
        decreases previews@.len() - i,
    {
        let ghost before = reader.scan();
        let ghost room = jpeg@.len();
        let result = reader.read_preview_into(&previews[i], jpeg);
        proof {
            let reserved = choose|reserved: bool|
                (reader.scan(), parser::gained(result, jpeg@)) == #[trigger] parser::delivered(
                    before,
                    reader.origin(),
                    reader.size(),
                    previews@[i as int],
                    room,
                    reserved,
                );
            lemma_tried(
                scan,
                reader.origin(),
                reader.size(),
                previews@,
                held,
                answers,
                reserved,
                i as int,
            );
            answers = answers.push(reserved);
        }
        match result {
            Ok(()) => {
                assert(tried(
                    old(reader).scan(),
                    old(reader).origin(),
                    old(reader).size(),
                    previews@,
                    old(jpeg)@.len(),
                    answers,
                    answers.len() as int,
                ).1[i as int] == Ok::<Seq<u8>, Fault>(jpeg@));
                return (Some(i), errors);
            },
            Err(error) => {
                errors.push(error);
            },
        }
        i += 1;
    }
    (None, errors)
}

} // verus!
