use vstd::prelude::*;
use vstd::string::StringExecFns;

verus! {

/// Appends `data` followed by a newline to the buffer.
///
/// The caller owns the buffer and passes it in explicitly; no state is
/// shared behind the scenes, which keeps the operation testable.
pub fn append_new_line(buf: &mut String, data: &str)
    ensures
        final(buf)@ == old(buf)@ + data@ + "\n"@,
{
    buf.append(data);
    buf.append("\n");
}

/// Character-wise string equality, usable wherever contracts compare views.
pub(crate) fn str_eq(a: &str, b: &str) -> (r: bool)
    ensures
        r == (a@ == b@),
{
    let sa = a.to_owned();
    let sb = b.to_owned();
    sa.eq(&sb)
}

} // verus!
