//! The toolbar's formatting tools: what each one shows, and the markdown
//! operation and caret policy it applies.
use vstd::prelude::*;

use super::{around_spec, start_line_spec, within_buffer_limit, ReplaceFmt, Selection, UnselectedApplyMode};
use crate::text::chars_of;

verus! {

broadcast use vstd::string::group_string_axioms;

/// What every tool holds: the CSS selector of the text area it edits, its
/// button's class, title and size, and how it widens a caret.
#[derive(Debug, Clone, Default)]
pub struct Tool {
    pub textarea_selector: String,
    pub class: String,
    pub title: String,
    pub size: u32,
    pub mode: UnselectedApplyMode,
}

/// A tool as first made: it edits the editor's own text area.
pub open spec fn fresh_tool(t: Tool, title: Seq<char>, size: u32, mode: UnselectedApplyMode) -> bool {
    &&& t.textarea_selector@ == ".lew-simple__textarea"@
    &&& t.class@ == "lew-simple__tool_button"@
    &&& t.title@ == title
    &&& t.size == size
    &&& t.mode == mode
}

/// A tool with its default look.
fn default_tool(title: &str, size: u32, mode: UnselectedApplyMode) -> (t: Tool)
    ensures
        fresh_tool(t, title@, size, mode),
{
    Tool {
        textarea_selector: ".lew-simple__textarea".to_string(),
        class: "lew-simple__tool_button".to_string(),
        title: title.to_string(),
        size,
        mode,
    }
}

/// The selected characters hold a line break.
pub open spec fn spans_lines(text: Seq<char>, selection: Selection) -> bool {
    exists|i: int| selection.start <= i < selection.end && text[i] == '\n'
}

/// The tool that applies a markdown header prefix.
#[derive(Debug, Clone, Default)]
pub struct Header(pub Tool);

impl Header {
    /// The tool with its default look, editing the editor's own text area.
    pub fn new() -> (r: Self)
        ensures
            fresh_tool(r.0, "Header"@, 16, UnselectedApplyMode::Line),
    {
        Header(default_tool("Header", 16, UnselectedApplyMode::Line))
    }

    /// The tool editing the text area that `selector` finds.
    pub fn with_textarea_selector(self, selector: &str) -> (r: Self)
        ensures
            r.0.textarea_selector@ == selector@,
            r.0.class == self.0.class,
            r.0.title == self.0.title,
            r.0.size == self.0.size,
            r.0.mode == self.0.mode,
    {
        let mut tool = self;
        tool.0.textarea_selector = selector.to_string();
        tool
    }

    /// The tool with its button in the CSS class `class`.
    pub fn with_class(self, class: &str) -> (r: Self)
        ensures
            r.0.class@ == class@,
            r.0.textarea_selector == self.0.textarea_selector,
            r.0.title == self.0.title,
            r.0.size == self.0.size,
            r.0.mode == self.0.mode,
    {
        let mut tool = self;
        tool.0.class = class.to_string();
        tool
    }

    /// The tool with its button titled `title`.
    pub fn with_title(self, title: &str) -> (r: Self)
        ensures
            r.0.title@ == title@,
            r.0.textarea_selector == self.0.textarea_selector,
            r.0.class == self.0.class,
            r.0.size == self.0.size,
            r.0.mode == self.0.mode,
    {
        let mut tool = self;
        tool.0.title = title.to_string();
        tool
    }

    /// The tool with its button `size` pixels wide and high.
    pub fn with_size(self, size: u32) -> (r: Self)
        ensures
            r.0.size == size,
            r.0.textarea_selector == self.0.textarea_selector,
            r.0.class == self.0.class,
            r.0.title == self.0.title,
            r.0.mode == self.0.mode,
    {
        let mut tool = self;
        tool.0.size = size;
        tool
    }

    /// Applies the tool's markers to `text` at `selection`; a caret is first
    /// widened by the tool's policy.
    pub fn apply(&self, text: String, selection: Selection) -> (r: (String, Selection))
        requires
            selection.valid_in(text@.len() as int),
            within_buffer_limit(text@.len() as int),
        ensures
            (r.0@, r.1) == around_spec(
                text@,
                "### "@,
                ""@,
                selection,
                self.0.mode.spec_expand(text@, selection),
            ),
    {
        let fmt = ReplaceFmt::Around("### ".to_string(), "".to_string());
        proof {
            reveal_strlit("### ");
            reveal_strlit("");
        }
        fmt.layout(text, selection, self.0.mode)
    }
}

/// The tool that applies bold markers.
#[derive(Debug, Clone, Default)]
pub struct Bold(pub Tool);

impl Bold {
    /// The tool with its default look, editing the editor's own text area.
    pub fn new() -> (r: Self)
        ensures
            fresh_tool(r.0, "Bold"@, 16, UnselectedApplyMode::Word),
    {
        Bold(default_tool("Bold", 16, UnselectedApplyMode::Word))
    }

    /// The tool editing the text area that `selector` finds.
    pub fn with_textarea_selector(self, selector: &str) -> (r: Self)
        ensures
            r.0.textarea_selector@ == selector@,
            r.0.class == self.0.class,
            r.0.title == self.0.title,
            r.0.size == self.0.size,
            r.0.mode == self.0.mode,
    {
        let mut tool = self;
        tool.0.textarea_selector = selector.to_string();
        tool
    }

    /// The tool with its button in the CSS class `class`.
    pub fn with_class(self, class: &str) -> (r: Self)
        ensures
            r.0.class@ == class@,
            r.0.textarea_selector == self.0.textarea_selector,
            r.0.title == self.0.title,
            r.0.size == self.0.size,
            r.0.mode == self.0.mode,
    {
        let mut tool = self;
        tool.0.class = class.to_string();
        tool
    }

    /// The tool with its button titled `title`.
    pub fn with_title(self, title: &str) -> (r: Self)
        ensures
            r.0.title@ == title@,
            r.0.textarea_selector == self.0.textarea_selector,
            r.0.class == self.0.class,
            r.0.size == self.0.size,
            r.0.mode == self.0.mode,
    {
        let mut tool = self;
        tool.0.title = title.to_string();
        tool
    }

    /// The tool with its button `size` pixels wide and high.
    pub fn with_size(self, size: u32) -> (r: Self)
        ensures
            r.0.size == size,
            r.0.textarea_selector == self.0.textarea_selector,
            r.0.class == self.0.class,
            r.0.title == self.0.title,
            r.0.mode == self.0.mode,
    {
        let mut tool = self;
        tool.0.size = size;
        tool
    }

    /// Applies the tool's markers to `text` at `selection`; a caret is first
    /// widened by the tool's policy.
    pub fn apply(&self, text: String, selection: Selection) -> (r: (String, Selection))
        requires
            selection.valid_in(text@.len() as int),
            within_buffer_limit(text@.len() as int),
        ensures
            (r.0@, r.1) == around_spec(
                text@,
                "**"@,
                "**"@,
                selection,
                self.0.mode.spec_expand(text@, selection),
            ),
    {
        let fmt = ReplaceFmt::Around("**".to_string(), "**".to_string());
        proof {
            reveal_strlit("**");
            reveal_strlit("**");
        }
        fmt.layout(text, selection, self.0.mode)
    }
}

/// The tool that applies italic markers.
#[derive(Debug, Clone, Default)]
pub struct Italic(pub Tool);

impl Italic {
    /// The tool with its default look, editing the editor's own text area.
    pub fn new() -> (r: Self)
        ensures
            fresh_tool(r.0, "Italic"@, 16, UnselectedApplyMode::Word),
    {
        Italic(default_tool("Italic", 16, UnselectedApplyMode::Word))
    }

    /// The tool editing the text area that `selector` finds.
    pub fn with_textarea_selector(self, selector: &str) -> (r: Self)
        ensures
            r.0.textarea_selector@ == selector@,
            r.0.class == self.0.class,
            r.0.title == self.0.title,
            r.0.size == self.0.size,
            r.0.mode == self.0.mode,
    {
        let mut tool = self;
        tool.0.textarea_selector = selector.to_string();
        tool
    }

    /// The tool with its button in the CSS class `class`.
    pub fn with_class(self, class: &str) -> (r: Self)
        ensures
            r.0.class@ == class@,
            r.0.textarea_selector == self.0.textarea_selector,
            r.0.title == self.0.title,
            r.0.size == self.0.size,
            r.0.mode == self.0.mode,
    {
        let mut tool = self;
        tool.0.class = class.to_string();
        tool
    }

    /// The tool with its button titled `title`.
    pub fn with_title(self, title: &str) -> (r: Self)
        ensures
            r.0.title@ == title@,
            r.0.textarea_selector == self.0.textarea_selector,
            r.0.class == self.0.class,
            r.0.size == self.0.size,
            r.0.mode == self.0.mode,
    {
        let mut tool = self;
        tool.0.title = title.to_string();
        tool
    }

    /// The tool with its button `size` pixels wide and high.
    pub fn with_size(self, size: u32) -> (r: Self)
        ensures
            r.0.size == size,
            r.0.textarea_selector == self.0.textarea_selector,
            r.0.class == self.0.class,
            r.0.title == self.0.title,
            r.0.mode == self.0.mode,
    {
        let mut tool = self;
        tool.0.size = size;
        tool
    }

    /// Applies the tool's markers to `text` at `selection`; a caret is first
    /// widened by the tool's policy.
    pub fn apply(&self, text: String, selection: Selection) -> (r: (String, Selection))
        requires
            selection.valid_in(text@.len() as int),
            within_buffer_limit(text@.len() as int),
        ensures
            (r.0@, r.1) == around_spec(
                text@,
                "*"@,
                "*"@,
                selection,
                self.0.mode.spec_expand(text@, selection),
            ),
    {
        let fmt = ReplaceFmt::Around("*".to_string(), "*".to_string());
        proof {
            reveal_strlit("*");
            reveal_strlit("*");
        }
        fmt.layout(text, selection, self.0.mode)
    }
}

/// The tool that applies a block quote prefix on every line.
#[derive(Debug, Clone, Default)]
pub struct Quote(pub Tool);

impl Quote {
    /// The tool with its default look, editing the editor's own text area.
    pub fn new() -> (r: Self)
        ensures
            fresh_tool(r.0, "Quote"@, 16, UnselectedApplyMode::FromWordToEndLine),
    {
        Quote(default_tool("Quote", 16, UnselectedApplyMode::FromWordToEndLine))
    }

    /// The tool editing the text area that `selector` finds.
    pub fn with_textarea_selector(self, selector: &str) -> (r: Self)
        ensures
            r.0.textarea_selector@ == selector@,
            r.0.class == self.0.class,
            r.0.title == self.0.title,
            r.0.size == self.0.size,
            r.0.mode == self.0.mode,
    {
        let mut tool = self;
        tool.0.textarea_selector = selector.to_string();
        tool
    }

    /// The tool with its button in the CSS class `class`.
    pub fn with_class(self, class: &str) -> (r: Self)
        ensures
            r.0.class@ == class@,
            r.0.textarea_selector == self.0.textarea_selector,
            r.0.title == self.0.title,
            r.0.size == self.0.size,
            r.0.mode == self.0.mode,
    {
        let mut tool = self;
        tool.0.class = class.to_string();
        tool
    }

    /// The tool with its button titled `title`.
    pub fn with_title(self, title: &str) -> (r: Self)
        ensures
            r.0.title@ == title@,
            r.0.textarea_selector == self.0.textarea_selector,
            r.0.class == self.0.class,
            r.0.size == self.0.size,
            r.0.mode == self.0.mode,
    {
        let mut tool = self;
        tool.0.title = title.to_string();
        tool
    }

    /// The tool with its button `size` pixels wide and high.
    pub fn with_size(self, size: u32) -> (r: Self)
        ensures
            r.0.size == size,
            r.0.textarea_selector == self.0.textarea_selector,
            r.0.class == self.0.class,
            r.0.title == self.0.title,
            r.0.mode == self.0.mode,
    {
        let mut tool = self;
        tool.0.size = size;
        tool
    }

    /// Applies the tool's line prefix to `text` at `selection`; a caret is
    /// first widened by the tool's policy.
    pub fn apply(&self, text: String, selection: Selection) -> (r: (String, Selection))
        requires
            selection.valid_in(text@.len() as int),
            within_buffer_limit(text@.len() as int),
        ensures
            (r.0@, r.1) == start_line_spec(
                text@,
                "> "@,
                selection,
                self.0.mode.spec_expand(text@, selection),
            ),
    {
        let fmt = ReplaceFmt::StartLine("> ".to_string());
        proof {
            reveal_strlit("> ");
            let n = text@.len() as int;
            assert(n + 1 + (n + 1) * 6 <= usize::MAX) by (nonlinear_arith)
                requires
                    n <= usize::MAX / 8,
            ;
        }
        fmt.layout(text, selection, self.0.mode)
    }
}

/// The tool that applies inline code markers, or a fenced code block.
#[derive(Debug, Clone, Default)]
pub struct Code(pub Tool);

impl Code {
    /// The tool with its default look, editing the editor's own text area.
    pub fn new() -> (r: Self)
        ensures
            fresh_tool(r.0, "Code"@, 16, UnselectedApplyMode::Word),
    {
        Code(default_tool("Code", 16, UnselectedApplyMode::Word))
    }

    /// The tool editing the text area that `selector` finds.
    pub fn with_textarea_selector(self, selector: &str) -> (r: Self)
        ensures
            r.0.textarea_selector@ == selector@,
            r.0.class == self.0.class,
            r.0.title == self.0.title,
            r.0.size == self.0.size,
            r.0.mode == self.0.mode,
    {
        let mut tool = self;
        tool.0.textarea_selector = selector.to_string();
        tool
    }

    /// The tool with its button in the CSS class `class`.
    pub fn with_class(self, class: &str) -> (r: Self)
        ensures
            r.0.class@ == class@,
            r.0.textarea_selector == self.0.textarea_selector,
            r.0.title == self.0.title,
            r.0.size == self.0.size,
            r.0.mode == self.0.mode,
    {
        let mut tool = self;
        tool.0.class = class.to_string();
        tool
    }

    /// The tool with its button titled `title`.
    pub fn with_title(self, title: &str) -> (r: Self)
        ensures
            r.0.title@ == title@,
            r.0.textarea_selector == self.0.textarea_selector,
            r.0.class == self.0.class,
            r.0.size == self.0.size,
            r.0.mode == self.0.mode,
    {
        let mut tool = self;
        tool.0.title = title.to_string();
        tool
    }

    /// The tool with its button `size` pixels wide and high.
    pub fn with_size(self, size: u32) -> (r: Self)
        ensures
            r.0.size == size,
            r.0.textarea_selector == self.0.textarea_selector,
            r.0.class == self.0.class,
            r.0.title == self.0.title,
            r.0.mode == self.0.mode,
    {
        let mut tool = self;
        tool.0.size = size;
        tool
    }

    /// Applies inline code markers to `text` at `selection`, or a fenced code
    /// block where the selection spans lines; a caret is first widened by the
    /// tool's policy.
    pub fn apply(&self, text: String, selection: Selection) -> (r: (String, Selection))
        requires
            selection.valid_in(text@.len() as int),
            within_buffer_limit(text@.len() as int),
        ensures
            spans_lines(text@, selection) ==> (r.0@, r.1) == around_spec(
                text@,
                "\n```\n"@,
                "\n```\n"@,
                selection,
                self.0.mode.spec_expand(text@, selection),
            ),
            !spans_lines(text@, selection) ==> (r.0@, r.1) == around_spec(
                text@,
                "`"@,
                "`"@,
                selection,
                self.0.mode.spec_expand(text@, selection),
            ),
    {
        let chars = chars_of(text.as_str());
        let mut i: usize = selection.start;
        let mut fenced = false;
        while i < selection.end
            invariant
                chars@ == text@,
                selection.start <= i <= selection.end <= chars.len(),
                fenced ==> spans_lines(text@, selection),
                !fenced ==> forall|j: int| selection.start <= j < i ==> chars@[j] != '\n',
            decreases selection.end - i,
        {
            if chars[i] == '\n' {
                fenced = true;
            }
            i = i + 1;
        }
        let fmt = if fenced {
            ReplaceFmt::Around("\n```\n".to_string(), "\n```\n".to_string())
        } else {
            ReplaceFmt::Around("`".to_string(), "`".to_string())
        };
        proof {
            reveal_strlit("\n```\n");
            reveal_strlit("`");
        }
        fmt.layout(text, selection, self.0.mode)
    }
}

/// The tool that applies a link.
#[derive(Debug, Clone, Default)]
pub struct Link(pub Tool);

impl Link {
    /// The tool with its default look, editing the editor's own text area.
    pub fn new() -> (r: Self)
        ensures
            fresh_tool(r.0, "Link"@, 16, UnselectedApplyMode::Word),
    {
        Link(default_tool("Link", 16, UnselectedApplyMode::Word))
    }

    /// The tool editing the text area that `selector` finds.
    pub fn with_textarea_selector(self, selector: &str) -> (r: Self)
        ensures
            r.0.textarea_selector@ == selector@,
            r.0.class == self.0.class,
            r.0.title == self.0.title,
            r.0.size == self.0.size,
            r.0.mode == self.0.mode,
    {
        let mut tool = self;
        tool.0.textarea_selector = selector.to_string();
        tool
    }

    /// The tool with its button in the CSS class `class`.
    pub fn with_class(self, class: &str) -> (r: Self)
        ensures
            r.0.class@ == class@,
            r.0.textarea_selector == self.0.textarea_selector,
            r.0.title == self.0.title,
            r.0.size == self.0.size,
            r.0.mode == self.0.mode,
    {
        let mut tool = self;
        tool.0.class = class.to_string();
        tool
    }

    /// The tool with its button titled `title`.
    pub fn with_title(self, title: &str) -> (r: Self)
        ensures
            r.0.title@ == title@,
            r.0.textarea_selector == self.0.textarea_selector,
            r.0.class == self.0.class,
            r.0.size == self.0.size,
            r.0.mode == self.0.mode,
    {
        let mut tool = self;
        tool.0.title = title.to_string();
        tool
    }

    /// The tool with its button `size` pixels wide and high.
    pub fn with_size(self, size: u32) -> (r: Self)
        ensures
            r.0.size == size,
            r.0.textarea_selector == self.0.textarea_selector,
            r.0.class == self.0.class,
            r.0.title == self.0.title,
            r.0.mode == self.0.mode,
    {
        let mut tool = self;
        tool.0.size = size;
        tool
    }

    /// Applies the tool's markers to `text` at `selection`; a caret is first
    /// widened by the tool's policy.
    pub fn apply(&self, text: String, selection: Selection) -> (r: (String, Selection))
        requires
            selection.valid_in(text@.len() as int),
            within_buffer_limit(text@.len() as int),
        ensures
            (r.0@, r.1) == around_spec(
                text@,
                "["@,
                "]()"@,
                selection,
                self.0.mode.spec_expand(text@, selection),
            ),
    {
        let fmt = ReplaceFmt::Around("[".to_string(), "]()".to_string());
        proof {
            reveal_strlit("[");
            reveal_strlit("]()");
        }
        fmt.layout(text, selection, self.0.mode)
    }
}

/// The tool that applies an image link.
#[derive(Debug, Clone, Default)]
pub struct ImageLink(pub Tool);

impl ImageLink {
    /// The tool with its default look, editing the editor's own text area.
    pub fn new() -> (r: Self)
        ensures
            fresh_tool(r.0, "Image link"@, 16, UnselectedApplyMode::Word),
    {
        ImageLink(default_tool("Image link", 16, UnselectedApplyMode::Word))
    }

    /// The tool editing the text area that `selector` finds.
    pub fn with_textarea_selector(self, selector: &str) -> (r: Self)
        ensures
            r.0.textarea_selector@ == selector@,
            r.0.class == self.0.class,
            r.0.title == self.0.title,
            r.0.size == self.0.size,
            r.0.mode == self.0.mode,
    {
        let mut tool = self;
        tool.0.textarea_selector = selector.to_string();
        tool
    }

    /// The tool with its button in the CSS class `class`.
    pub fn with_class(self, class: &str) -> (r: Self)
        ensures
            r.0.class@ == class@,
            r.0.textarea_selector == self.0.textarea_selector,
            r.0.title == self.0.title,
            r.0.size == self.0.size,
            r.0.mode == self.0.mode,
    {
        let mut tool = self;
        tool.0.class = class.to_string();
        tool
    }

    /// The tool with its button titled `title`.
    pub fn with_title(self, title: &str) -> (r: Self)
        ensures
            r.0.title@ == title@,
            r.0.textarea_selector == self.0.textarea_selector,
            r.0.class == self.0.class,
            r.0.size == self.0.size,
            r.0.mode == self.0.mode,
    {
        let mut tool = self;
        tool.0.title = title.to_string();
        tool
    }

    /// The tool with its button `size` pixels wide and high.
    pub fn with_size(self, size: u32) -> (r: Self)
        ensures
            r.0.size == size,
            r.0.textarea_selector == self.0.textarea_selector,
            r.0.class == self.0.class,
            r.0.title == self.0.title,
            r.0.mode == self.0.mode,
    {
        let mut tool = self;
        tool.0.size = size;
        tool
    }

    /// Applies the tool's markers to `text` at `selection`; a caret is first
    /// widened by the tool's policy.
    pub fn apply(&self, text: String, selection: Selection) -> (r: (String, Selection))
        requires
            selection.valid_in(text@.len() as int),
            within_buffer_limit(text@.len() as int),
        ensures
            (r.0@, r.1) == around_spec(
                text@,
                "!["@,
                "]()"@,
                selection,
                self.0.mode.spec_expand(text@, selection),
            ),
    {
        let fmt = ReplaceFmt::Around("![".to_string(), "]()".to_string());
        proof {
            reveal_strlit("![");
            reveal_strlit("]()");
        }
        fmt.layout(text, selection, self.0.mode)
    }
}

/// The tool that applies a bulleted list item prefix on every line.
#[derive(Debug, Clone, Default)]
pub struct BulletedList(pub Tool);

impl BulletedList {
    /// The tool with its default look, editing the editor's own text area.
    pub fn new() -> (r: Self)
        ensures
            fresh_tool(r.0, "Bulleted list"@, 16, UnselectedApplyMode::FromWordToEndLine),
    {
        BulletedList(default_tool("Bulleted list", 16, UnselectedApplyMode::FromWordToEndLine))
    }

    /// The tool editing the text area that `selector` finds.
    pub fn with_textarea_selector(self, selector: &str) -> (r: Self)
        ensures
            r.0.textarea_selector@ == selector@,
            r.0.class == self.0.class,
            r.0.title == self.0.title,
            r.0.size == self.0.size,
            r.0.mode == self.0.mode,
    {
        let mut tool = self;
        tool.0.textarea_selector = selector.to_string();
        tool
    }

    /// The tool with its button in the CSS class `class`.
    pub fn with_class(self, class: &str) -> (r: Self)
        ensures
            r.0.class@ == class@,
            r.0.textarea_selector == self.0.textarea_selector,
            r.0.title == self.0.title,
            r.0.size == self.0.size,
            r.0.mode == self.0.mode,
    {
        let mut tool = self;
        tool.0.class = class.to_string();
        tool
    }

    /// The tool with its button titled `title`.
    pub fn with_title(self, title: &str) -> (r: Self)
        ensures
            r.0.title@ == title@,
            r.0.textarea_selector == self.0.textarea_selector,
            r.0.class == self.0.class,
            r.0.size == self.0.size,
            r.0.mode == self.0.mode,
    {
        let mut tool = self;
        tool.0.title = title.to_string();
        tool
    }

    /// The tool with its button `size` pixels wide and high.
    pub fn with_size(self, size: u32) -> (r: Self)
        ensures
            r.0.size == size,
            r.0.textarea_selector == self.0.textarea_selector,
            r.0.class == self.0.class,
            r.0.title == self.0.title,
            r.0.mode == self.0.mode,
    {
        let mut tool = self;
        tool.0.size = size;
        tool
    }

    /// Applies the tool's line prefix to `text` at `selection`; a caret is
    /// first widened by the tool's policy.
    pub fn apply(&self, text: String, selection: Selection) -> (r: (String, Selection))
        requires
            selection.valid_in(text@.len() as int),
            within_buffer_limit(text@.len() as int),
        ensures
            (r.0@, r.1) == start_line_spec(
                text@,
                "- "@,
                selection,
                self.0.mode.spec_expand(text@, selection),
            ),
    {
        let fmt = ReplaceFmt::StartLine("- ".to_string());
        proof {
            reveal_strlit("- ");
            let n = text@.len() as int;
            assert(n + 1 + (n + 1) * 6 <= usize::MAX) by (nonlinear_arith)
                requires
                    n <= usize::MAX / 8,
            ;
        }
        fmt.layout(text, selection, self.0.mode)
    }
}

/// The tool that applies an ordered list item prefix on every line.
#[derive(Debug, Clone, Default)]
pub struct OrderedList(pub Tool);

impl OrderedList {
    /// The tool with its default look, editing the editor's own text area.
    pub fn new() -> (r: Self)
        ensures
            fresh_tool(r.0, "Ordered list"@, 16, UnselectedApplyMode::FromWordToEndLine),
    {
        OrderedList(default_tool("Ordered list", 16, UnselectedApplyMode::FromWordToEndLine))
    }

    /// The tool editing the text area that `selector` finds.
    pub fn with_textarea_selector(self, selector: &str) -> (r: Self)
        ensures
            r.0.textarea_selector@ == selector@,
            r.0.class == self.0.class,
            r.0.title == self.0.title,
            r.0.size == self.0.size,
            r.0.mode == self.0.mode,
    {
        let mut tool = self;
        tool.0.textarea_selector = selector.to_string();
        tool
    }

    /// The tool with its button in the CSS class `class`.
    pub fn with_class(self, class: &str) -> (r: Self)
        ensures
            r.0.class@ == class@,
            r.0.textarea_selector == self.0.textarea_selector,
            r.0.title == self.0.title,
            r.0.size == self.0.size,
            r.0.mode == self.0.mode,
    {
        let mut tool = self;
        tool.0.class = class.to_string();
        tool
    }

    /// The tool with its button titled `title`.
    pub fn with_title(self, title: &str) -> (r: Self)
        ensures
            r.0.title@ == title@,
            r.0.textarea_selector == self.0.textarea_selector,
            r.0.class == self.0.class,
            r.0.size == self.0.size,
            r.0.mode == self.0.mode,
    {
        let mut tool = self;
        tool.0.title = title.to_string();
        tool
    }

    /// The tool with its button `size` pixels wide and high.
    pub fn with_size(self, size: u32) -> (r: Self)
        ensures
            r.0.size == size,
            r.0.textarea_selector == self.0.textarea_selector,
            r.0.class == self.0.class,
            r.0.title == self.0.title,
            r.0.mode == self.0.mode,
    {
        let mut tool = self;
        tool.0.size = size;
        tool
    }

    /// Applies the tool's line prefix to `text` at `selection`; a caret is
    /// first widened by the tool's policy.
    pub fn apply(&self, text: String, selection: Selection) -> (r: (String, Selection))
        requires
            selection.valid_in(text@.len() as int),
            within_buffer_limit(text@.len() as int),
        ensures
            (r.0@, r.1) == start_line_spec(
                text@,
                "1. "@,
                selection,
                self.0.mode.spec_expand(text@, selection),
            ),
    {
        let fmt = ReplaceFmt::StartLine("1. ".to_string());
        proof {
            reveal_strlit("1. ");
            let n = text@.len() as int;
            assert(n + 1 + (n + 1) * 6 <= usize::MAX) by (nonlinear_arith)
                requires
                    n <= usize::MAX / 8,
            ;
        }
        fmt.layout(text, selection, self.0.mode)
    }
}

/// The tool that applies a task list item prefix on every line.
#[derive(Debug, Clone, Default)]
pub struct TaskList(pub Tool);

impl TaskList {
    /// The tool with its default look, editing the editor's own text area.
    pub fn new() -> (r: Self)
        ensures
            fresh_tool(r.0, "Task list"@, 24, UnselectedApplyMode::FromWordToEndLine),
    {
        TaskList(default_tool("Task list", 24, UnselectedApplyMode::FromWordToEndLine))
    }

    /// The tool editing the text area that `selector` finds.
    pub fn with_textarea_selector(self, selector: &str) -> (r: Self)
        ensures
            r.0.textarea_selector@ == selector@,
            r.0.class == self.0.class,
            r.0.title == self.0.title,
            r.0.size == self.0.size,
            r.0.mode == self.0.mode,
    {
        let mut tool = self;
        tool.0.textarea_selector = selector.to_string();
        tool
    }

    /// The tool with its button in the CSS class `class`.
    pub fn with_class(self, class: &str) -> (r: Self)
        ensures
            r.0.class@ == class@,
            r.0.textarea_selector == self.0.textarea_selector,
            r.0.title == self.0.title,
            r.0.size == self.0.size,
            r.0.mode == self.0.mode,
    {
        let mut tool = self;
        tool.0.class = class.to_string();
        tool
    }

    /// The tool with its button titled `title`.
    pub fn with_title(self, title: &str) -> (r: Self)
        ensures
            r.0.title@ == title@,
            r.0.textarea_selector == self.0.textarea_selector,
            r.0.class == self.0.class,
            r.0.size == self.0.size,
            r.0.mode == self.0.mode,
    {
        let mut tool = self;
        tool.0.title = title.to_string();
        tool
    }

    /// The tool with its button `size` pixels wide and high.
    pub fn with_size(self, size: u32) -> (r: Self)
        ensures
            r.0.size == size,
            r.0.textarea_selector == self.0.textarea_selector,
            r.0.class == self.0.class,
            r.0.title == self.0.title,
            r.0.mode == self.0.mode,
    {
        let mut tool = self;
        tool.0.size = size;
        tool
    }

    /// Applies the tool's line prefix to `text` at `selection`; a caret is
    /// first widened by the tool's policy.
    pub fn apply(&self, text: String, selection: Selection) -> (r: (String, Selection))
        requires
            selection.valid_in(text@.len() as int),
            within_buffer_limit(text@.len() as int),
        ensures
            (r.0@, r.1) == start_line_spec(
                text@,
                "- [ ] "@,
                selection,
                self.0.mode.spec_expand(text@, selection),
            ),
    {
        let fmt = ReplaceFmt::StartLine("- [ ] ".to_string());
        proof {
            reveal_strlit("- [ ] ");
            let n = text@.len() as int;
            assert(n + 1 + (n + 1) * 6 <= usize::MAX) by (nonlinear_arith)
                requires
                    n <= usize::MAX / 8,
            ;
        }
        fmt.layout(text, selection, self.0.mode)
    }
}

} // verus!
