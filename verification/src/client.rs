//! Client-side decisions. The client front end reads keyboard lines, sends
//! `"<name>: <text>\n"` to the server, and highlights received lines that
//! mention its own name with an `@` tag. Building that outbound payload and
//! deciding whether a line is a mention are pure text logic and live here;
//! reading the keyboard, writing the socket and colouring the terminal stay
//! with the I/O layer.

use vstd::prelude::*;
use vstd::string::StringExecFns;
use vstd::string::StrSliceExecFns;

verus! {

/// The wire shape of one chat message: the sender's name, a separating
/// colon and space, the typed text, and a terminating newline.
pub fn format_message(name: &str, text: &str) -> (msg: String)
    ensures
        msg@ == name@ + ": "@ + text@ + "\n"@,
{
    let mut msg = String::from_str(name);
    msg.append(": ");
    msg.append(text);
    msg.append("\n");
    msg
}

/// The name, preceded by the mention tag `'@'`, starts at position `k` of
/// the line.
pub open spec fn tag_at(line: Seq<char>, name: Seq<char>, k: int) -> bool {
    &&& k + 1 + name.len() <= line.len()
    &&& line[k] == '@'
    &&& name_matches(line, name, k)
}

/// The characters following position `k` spell the name.
pub open spec fn name_matches(line: Seq<char>, name: Seq<char>, k: int) -> bool {
    forall|j: int| 0 <= j < name.len() ==> line[k + 1 + j] == name[j]
}

/// The line mentions the name: `'@'` followed by the name occurs in it.
pub open spec fn spec_mentions(line: Seq<char>, name: Seq<char>) -> bool {
    exists|k: int| 0 <= k && #[trigger] tag_at(line, name, k)
}

/// Whether a received line mentions `name` — whether to highlight it.
pub fn mentions(line: &str, name: &str) -> (r: bool)
    ensures
        r == spec_mentions(line@, name@),
{
    let line_len = line.unicode_len();
    let name_len = name.unicode_len();
    if line_len <= name_len {
        return false;
    }
    let last = line_len - name_len;
    let mut k: usize = 0;
    while k < last
        invariant
            line_len == line@.len(),
            name_len == name@.len(),
            name_len < line_len,
            last == line_len - name_len,
            k <= last,
            forall|k2: int| 0 <= k2 < k ==> !tag_at(line@, name@, k2),
        decreases last - k,
    {
        if line.get_char(k) == '@' {
            if check_name_at(line, name, k, name_len) {
                proof {
                    assert(tag_at(line@, name@, k as int));
                }
                return true;
            }
        }
        k += 1;
    }
    proof {
        assert forall|k2: int| 0 <= k2 implies !tag_at(line@, name@, k2) by {
            if k2 < last as int {
                assert(!tag_at(line@, name@, k2));
            }
        }
    }
    false
}

/// Whether the characters after position `k` of the line spell the name.
fn check_name_at(line: &str, name: &str, k: usize, name_len: usize) -> (r: bool)
    requires
        name_len == name@.len(),
        k + 1 + name@.len() <= line@.len(),
        line@.len() <= usize::MAX,
    ensures
        r == name_matches(line@, name@, k as int),
{
    let mut j: usize = 0;
    while j < name_len
        invariant
            name_len == name@.len(),
            k + 1 + name@.len() <= line@.len(),
            line@.len() <= usize::MAX,
            j <= name_len,
            forall|j2: int| 0 <= j2 < j ==> line@[k + 1 + j2] == name@[j2],
        decreases name_len - j,
    {
        if line.get_char(k + 1 + j) != name.get_char(j) {
            return false;
        }
        j += 1;
    }
    true
}

} // verus!
