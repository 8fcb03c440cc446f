//! Where the files of a run go, and what a README holds after a run. The
//! files themselves are read and written by the program around the library.
use crate::layers::LAYER_COUNT;
use crate::text_processor::{chars_of, skip_whitespace, skip_whitespace_back, trimmed};
use vstd::prelude::*;
use vstd::string::StringExecFns;

verus! {

broadcast use vstd::string::group_string_axioms;

/// The line of a README that shows the current image. The prompt goes
/// below it.
pub const README_MARKER: &'static str = "![image](images/image_current.png)";

/// Handles file names and the text of the README.
pub struct FileManager;

/// The position of the first line feed of a text from `from` on, or the
/// length of the text if there is none.
pub open spec fn line_end(text: Seq<char>, from: int) -> int
    decreases text.len() - from,
{
    if from < 0 || from >= text.len() || text[from] == '\n' {
        from
    } else {
        line_end(text, from + 1)
    }
}

/// The line of a text that starts at `from`, without the line feed that
/// ends it and without a carriage return before that line feed.
pub open spec fn line_at(text: Seq<char>, from: int) -> Seq<char> {
    let end = line_end(text, from);
    if from < end < text.len() && text[end - 1] == '\r' {
        text.subrange(from, end - 1)
    } else {
        text.subrange(from, end)
    }
}

/// What follows the line that shows the current image: an empty line, then
/// the prompt under its heading.
pub open spec fn prompt_block(prompt: Seq<char>) -> Seq<char> {
    "\n**Prompt:** "@ + prompt + seq!['\n']
}

/// The README from the line that starts at `from` on, through the first
/// line that shows the current image, each line ended by a line feed, and
/// the prompt below that line. A line shows the current image when it is
/// `README_MARKER` between white space. Nothing where no line from `from`
/// on shows the current image.
pub open spec fn updated_from(text: Seq<char>, prompt: Seq<char>, from: int) -> Option<
    Seq<char>,
>
    decreases text.len() - from,
{
    if from < 0 || from >= text.len() {
        None
    } else {
        let line = line_at(text, from);
        if trimmed(line) == README_MARKER@ {
            Some(line + seq!['\n'] + prompt_block(prompt))
        } else if line_end(text, from) >= text.len() {
            None
        } else {
            proof {
                lemma_line_end(text, from);
            }
            match updated_from(text, prompt, line_end(text, from) + 1) {
                Some(rest) => Some(line + seq!['\n'] + rest),
                None => None,
            }
        }
    }
}

/// The digit that names a layer in file names: layers are counted from one.
pub open spec fn layer_digit(layer: int) -> char {
    if layer == 0 {
        '1'
    } else if layer == 1 {
        '2'
    } else if layer == 2 {
        '3'
    } else {
        '4'
    }
}

/// The end of a line lies at or after its start and within the text; no
/// line feed lies between the two, and one lies at the end unless the text
/// ends there.
pub proof fn lemma_line_end(text: Seq<char>, from: int)
    requires
        0 <= from <= text.len(),
    ensures
        from <= line_end(text, from) <= text.len(),
        forall|i: int| from <= i < line_end(text, from) ==> text[i] != '\n',
        line_end(text, from) < text.len() ==> text[line_end(text, from)] == '\n',
    decreases text.len() - from,
{
    if from < text.len() && text[from] != '\n' {
        lemma_line_end(text, from + 1);
    }
}

/// Whether `text` from `start` up to `end` is `other`.
fn same_text(text: &Vec<char>, start: usize, end: usize, other: &Vec<char>) -> (same: bool)
    requires
        start <= end <= text@.len(),
    ensures
        same == (text@.subrange(start as int, end as int) == other@),
{
    if end - start != other.len() {
        return false;
    }
    let mut i: usize = 0;
    while i < other.len()
        invariant
            start <= end <= text@.len(),
            end - start == other@.len(),
            i <= other@.len(),
            forall|m: int| 0 <= m < i ==> text@[start + m] == other@[m],
        decreases other@.len() - i,
    {
        if text[start + i] != other[i] {
            assert(text@.subrange(start as int, end as int)[i as int] != other@[i as int]);
            return false;
        }
        i += 1;
    }
    assert(text@.subrange(start as int, end as int) =~= other@);
    true
}

impl FileManager {
    /// The name of the image file of a date: `images/image_<date>.png`.
    pub fn image_path(date: &str) -> (path: String)
        ensures
            path@ == "images/image_"@ + date@ + ".png"@,
    {
        let mut path = String::from_str("images/image_");
        path.append(date);
        path.append(".png");
        path
    }

    /// The name of the prompt file of a date: `prompts/prompt_<date>.txt`.
    pub fn prompt_path(date: &str) -> (path: String)
        ensures
            path@ == "prompts/prompt_"@ + date@ + ".txt"@,
    {
        let mut path = String::from_str("prompts/prompt_");
        path.append(date);
        path.append(".txt");
        path
    }

    /// The name of the animation file of a date: `gifs/gif_<date>.gif`.
    pub fn gif_path(date: &str) -> (path: String)
        ensures
            path@ == "gifs/gif_"@ + date@ + ".gif"@,
    {
        let mut path = String::from_str("gifs/gif_");
        path.append(date);
        path.append(".gif");
        path
    }

    /// The name of the file of one layer of a date:
    /// `layers/<number>/layer_<date>.png`, the layers numbered from one.
    pub fn layer_path(layer: usize, date: &str) -> (path: String)
        requires
            layer < LAYER_COUNT,
        ensures
            path@ == "layers/"@.push(layer_digit(layer as int)) + "/layer_"@ + date@ + ".png"@,
    {
        let mut path = String::from_str("layers/");
        path.push(
            if layer == 0 {
                '1'
            } else if layer == 1 {
                '2'
            } else if layer == 2 {
                '3'
            } else {
                '4'
            },
        );
        path.append("/layer_");
        path.append(date);
        path.append(".png");
        path
    }

    /// The README after a run: its lines through the one that shows the
    /// current image, then the prompt; what followed that line is dropped.
    /// There is nothing to write where no line shows the current image.
    pub fn updated_readme(content: &str, prompt: &str) -> (updated: Option<String>)
        ensures
            match updated_from(content@, prompt@, 0) {
                Some(text) => updated matches Some(u) && u@ == text,
                None => updated is None,
            },
    {
        let text = chars_of(content);
        let marker = chars_of(README_MARKER);
        let mut updated = String::new();
        let mut from: usize = 0;
        assert(updated@ + Seq::<char>::empty() =~= Seq::<char>::empty());
        while from < text.len()
            invariant
                text@ == content@,
                marker@ == README_MARKER@,
                from <= text@.len(),
                match updated_from(content@, prompt@, from as int) {
                    Some(rest) => updated_from(content@, prompt@, 0) == Some(updated@ + rest),
                    None => updated_from(content@, prompt@, 0) is None,
                },
            decreases text@.len() - from,
        {
            let mut end = from;
            while end < text.len() && text[end] != '\n'
                invariant
                    from <= end <= text@.len(),
                    line_end(text@, from as int) == line_end(text@, end as int),
                decreases text@.len() - end,
            {
                end += 1;
            }
            let stop = if from < end && end < text.len() && text[end - 1] == '\r' {
                end - 1
            } else {
                end
            };
            let ghost line = line_at(text@, from as int);
            assert(line == text@.subrange(from as int, stop as int));
            let ghost before = updated@;
            let mut i = from;
            while i < stop
                invariant
                    from <= i <= stop <= text@.len(),
                    updated@ == before + text@.subrange(from as int, i as int),
                decreases stop - i,
            {
                updated.push(text[i]);
                assert(text@.subrange(from as int, i + 1) =~= text@.subrange(
                    from as int,
                    i as int,
                ).push(text@[i as int]));
                i += 1;
            }
            updated.push('\n');
            assert(updated@ =~= before + (line + seq!['\n']));
            let first = skip_whitespace(&text, from, stop);
            let last = skip_whitespace_back(&text, from, stop);
            let found = if first < last {
                assert(text@.subrange(first as int, last as int) =~= line.subrange(
                    first - from,
                    last - from,
                ));
                assert(trimmed(line) == line.subrange(first - from, last - from));
                same_text(&text, first, last, &marker)
            } else {
                assert(trimmed(line) == Seq::<char>::empty());
                assert(marker@.len() == 0 ==> marker@ =~= Seq::<char>::empty());
                marker.len() == 0
            };
            assert(found == (trimmed(line) == README_MARKER@));
            if found {
                let ghost shown = updated@;
                updated.append("\n**Prompt:** ");
                updated.append(prompt);
                updated.push('\n');
                assert(updated@ =~= before + (line + seq!['\n'] + prompt_block(prompt@)));
                return Some(updated);
            }
            proof {
                lemma_line_end(text@, from as int);
                let next = line_end(text@, from as int) + 1;
                match updated_from(content@, prompt@, next) {
                    Some(rest) => {
                        assert(before + (line + seq!['\n'] + rest) =~= updated@ + rest);
                    },
                    None => {},
                }
            }
            if end == text.len() {
                from = end;
            } else {
                from = end + 1;
            }
        }
        None
    }
}

} // verus!
