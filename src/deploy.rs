//! Shell commands used when provisioning a server.

use vstd::prelude::*;

use crate::html::{find_char, split_on};
use crate::text::{chars_of, owned, push_str, string_of};
use vstd::slice::slice_subrange;

verus! {

/// A `printf` format with one `%s` for each of `n` lines.
pub open spec fn line_format(n: nat) -> Seq<char>
    decreases n,
{
    if n <= 1 {
        "%s"@
    } else {
        line_format((n - 1) as nat) + "\n%s"@
    }
}

/// Each line in single quotes, each followed by a space.
pub open spec fn quoted_lines(ls: Seq<Seq<char>>) -> Seq<char>
    decreases ls.len(),
{
    if ls.len() == 0 {
        Seq::empty()
    } else {
        quoted_lines(ls.drop_last()) + "'"@ + ls.last() + "' "@
    }
}

/// The shell command that writes `contents` to `file_name`, one `printf`
/// argument per line.
pub open spec fn write_command(file_name: Seq<char>, contents: Seq<char>) -> Seq<char> {
    let ls = split_on(contents, '\n', 0);
    "printf \""@ + line_format(ls.len()) + "\" "@ + quoted_lines(ls) + " > "@ + file_name
}

/// The shell command that writes `contents` to `file_name`: a `printf` with one
/// `%s` per line and each line as a quoted argument.
pub fn bash_write_file(file_name: &str, contents: &str) -> (r: String)
    ensures
        r@ == write_command(file_name@, contents@),
{
    let v = chars_of(contents);
    let n = v.len();
    let ghost ls = split_on(v@, '\n', 0);
    let mut lines: Vec<String> = Vec::new();
    let mut from: usize = 0;
    assert(lines@.map_values(|x: String| x@) =~= Seq::<Seq<char>>::empty());
    loop
        invariant_except_break
            n == v@.len(),
            v@ == contents@,
            from <= n,
            ls == split_on(v@, '\n', 0),
            ls == lines@.map_values(|x: String| x@) + split_on(v@, '\n', from as int),
        ensures
            ls == lines@.map_values(|x: String| x@),
            lines@.len() >= 1,
        decreases n - from,
    {
        let mut d = from;
        while d < n && v[d] != '\n'
            invariant
                from <= d <= n,
                n == v@.len(),
                find_char(v@, '\n', from as int) == find_char(v@, '\n', d as int),
            decreases n - d,
        {
            d = d + 1;
        }
        let ghost before = lines@.map_values(|x: String| x@);
        lines.push(string_of(slice_subrange(v.as_slice(), from, d)));
        assert(lines@.map_values(|x: String| x@) =~= before.push(v@.subrange(from as int, d as int)));
        if d == n {
            assert(split_on(v@, '\n', from as int) == seq![v@.subrange(from as int, n as int)]);
            assert(ls =~= lines@.map_values(|x: String| x@));
            break;
        }
        assert(before + (seq![v@.subrange(from as int, d as int)] + split_on(v@, '\n', d + 1))
            =~= before.push(v@.subrange(from as int, d as int)) + split_on(v@, '\n', d + 1));
        from = d + 1;
    }
    let mut cmd = owned("printf \"");
    let mut k: usize = 0;
    while k < lines.len()
        invariant
            k <= lines@.len(),
            lines@.len() >= 1,
            ls == lines@.map_values(|x: String| x@),
            k == 0 ==> cmd@ == "printf \""@,
            k > 0 ==> cmd@ == "printf \""@ + line_format(k as nat),
        decreases lines@.len() - k,
    {
        if k == 0 {
            push_str(&mut cmd, "%s");
        } else {
            push_str(&mut cmd, "\n%s");
        }
        k = k + 1;
    }
    push_str(&mut cmd, "\" ");
    let ghost head = cmd@;
    let mut k: usize = 0;
    assert(lines@.map_values(|x: String| x@).subrange(0, 0) =~= Seq::<Seq<char>>::empty());
    while k < lines.len()
        invariant
            k <= lines@.len(),
            ls == lines@.map_values(|x: String| x@),
            cmd@ == head + quoted_lines(ls.subrange(0, k as int)),
        decreases lines@.len() - k,
    {
        push_str(&mut cmd, "'");
        push_str(&mut cmd, lines[k].as_str());
        push_str(&mut cmd, "' ");
        proof {
            let t = ls.subrange(0, k + 1);
            assert(t.drop_last() =~= ls.subrange(0, k as int));
            assert(t.last() == lines@[k as int]@);
        }
        k = k + 1;
    }
    assert(ls.subrange(0, k as int) =~= ls);
    push_str(&mut cmd, " > ");
    push_str(&mut cmd, file_name);
    cmd
}

} // verus!
