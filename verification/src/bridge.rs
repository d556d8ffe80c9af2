//! The scripts the browser front end runs: filling the list of identifiers,
//! setting the output title, and showing an output text.

use vstd::prelude::*;
use crate::archmap::get_arch_map;
use crate::archmap;
use crate::text::{push_chars, push_repeat, string_from_chars};
use crate::text;

verus! {

/// The script that adds `key` to the page's list of identifiers.
pub open spec fn option_script_text(key: Seq<char>) -> Seq<char> {
    "\n                    const opt1 = document.createElement(\"option\");\n                    opt1.value = \""@
        + key + "\";\n                    opt1.text = \""@ + key
        + "\";\n                    document.getElementById(\"arch\").add(opt1, null);\n                "@
}

/// The script that adds `key` to the page's list of identifiers.
pub fn option_script(key: &str) -> (s: String)
    ensures
        s@ == option_script_text(key@),
{
    let mut out: Vec<char> = Vec::new();
    push_chars(&mut out, "\n                    const opt1 = document.createElement(\"option\");\n                    opt1.value = \"");
    push_chars(&mut out, key);
    push_chars(&mut out, "\";\n                    opt1.text = \"");
    push_chars(&mut out, key);
    push_chars(&mut out, "\";\n                    document.getElementById(\"arch\").add(opt1, null);\n                ");
    assert(out@ =~= option_script_text(key@));
    string_from_chars(out.as_slice())
}

/// The scripts that fill the list of identifiers, one per identifier of the
/// map, in map order.
pub fn load_scripts() -> (v: Vec<String>)
    ensures
        v@.len() == archmap::spec_arch_map().len(),
        forall|k: int| 0 <= k < v@.len() ==>
            (#[trigger] v@[k])@ == option_script_text(archmap::spec_arch_map()[k].0),
{
    let m = get_arch_map();
    let mut v: Vec<String> = Vec::new();
    let mut i: usize = 0;
    while i < m.len()
        invariant
            archmap::map_value(m@) == archmap::spec_arch_map(),
            i <= m@.len(),
            v@.len() == i,
            forall|k: int| 0 <= k < i ==>
                (#[trigger] v@[k])@ == option_script_text(archmap::spec_arch_map()[k].0),
        decreases m@.len() - i,
    {
        let s = option_script(m[i].0.as_str());
        proof {
            assert(archmap::map_value(m@)[i as int].0 == m@[i as int].0@);
        }
        v.push(s);
        i = i + 1;
    }
    v
}

/// The script that sets the title above the output.
pub open spec fn title_script_text(title: Seq<char>) -> Seq<char> {
    "\n            document.getElementById(\"output_title\").textContent = \""@ + title + "\";\n        "@
}

/// The script that sets the title above the output.
pub fn title_script(title: &str) -> (s: String)
    ensures
        s@ == title_script_text(title@),
{
    let mut out: Vec<char> = Vec::new();
    push_chars(&mut out, "\n            document.getElementById(\"output_title\").textContent = \"");
    push_chars(&mut out, title);
    push_chars(&mut out, "\";\n        ");
    assert(out@ =~= title_script_text(title@));
    string_from_chars(out.as_slice())
}

/// The text with every line break written as a backslash and `n`.
pub open spec fn escape_newlines(s: Seq<char>) -> Seq<char>
    decreases s.len(),
{
    if s.len() == 0 {
        Seq::<char>::empty()
    } else {
        escape_newlines(s.drop_last()) + if s.last() == '\n' {
            seq!['\\', 'n']
        } else {
            seq![s.last()]
        }
    }
}

/// Appends `s` with every line break written as a backslash and `n`.
pub fn push_escaped(out: &mut Vec<char>, s: &str)
    ensures
        final(out)@ == old(out)@ + escape_newlines(s@),
{
    let n = s.unicode_len();
    let mut i: usize = 0;
    while i < n
        invariant
            n == s@.len(),
            i <= n,
            out@ == old(out)@ + escape_newlines(s@.take(i as int)),
        decreases n - i,
    {
        let c = s.get_char(i);
        proof {
            assert(s@.take(i + 1).drop_last() == s@.take(i as int));
        }
        if c == '\n' {
            out.push('\\');
            out.push('n');
        } else {
            out.push(c);
        }
        i = i + 1;
    }
    proof {
        assert(s@.take(i as int) == s@);
    }
}

/// The script that shows `text` in the output box, its line breaks escaped;
/// its lines are indented by `indent` spaces and the closing line by four
/// fewer.
pub open spec fn output_script_text(text: Seq<char>, indent: nat) -> Seq<char> {
    seq!['\n'] + text::repeat_char(' ', indent) + "document.getElementById(\"output\").value = \""@
        + escape_newlines(text) + "\";\n"@ + text::repeat_char(' ', (indent - 4) as nat)
}

/// The script that shows `text` in the output box.
pub fn output_script(text: &str, indent: usize) -> (s: String)
    requires
        indent >= 4,
    ensures
        s@ == output_script_text(text@, indent as nat),
{
    let mut out: Vec<char> = Vec::new();
    out.push('\n');
    push_repeat(&mut out, ' ', indent);
    push_chars(&mut out, "document.getElementById(\"output\").value = \"");
    push_escaped(&mut out, text);
    push_chars(&mut out, "\";\n");
    push_repeat(&mut out, ' ', indent - 4);
    assert(out@ =~= output_script_text(text@, indent as nat));
    string_from_chars(out.as_slice())
}

} // verus!
