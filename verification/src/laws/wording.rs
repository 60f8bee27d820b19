//! How operations read in log lines and hints.

use vstd::prelude::*;

use crate::host;
use crate::log;
use crate::log::LogTime;
use crate::metadata_request;
use crate::operation;
use crate::operation::MetadataOperation;
use crate::operation::ReadWriteOperation;
use crate::path::SandboxPath;
use crate::runtime;
use crate::session;
use crate::text;

verus! {

broadcast use vstd::string::group_string_axioms;

/// Every description of a read or write begins with the path that it is about
/// first; those of a hard link begin with their own side of it.
pub proof fn lemma_descriptions_name_the_path(operation: ReadWriteOperation, i: int)
    requires
        0 <= i < operation.effects().len(),
    ensures
        ("path="@ + operation.subject().text()).is_prefix_of(operation.body()),
        ("path="@ + (if operation is Link {
            operation.effects()[i].path
        } else {
            operation.subject()
        }).text()).is_prefix_of(operation.effects()[i].description),
        operation matches ReadWriteOperation::Rename { from, to } ==> to.text().is_suffix_of(
            operation.body(),
        ),
        operation matches ReadWriteOperation::GetXattr { path, name } ==> name@.is_suffix_of(
            operation.body(),
        ),
        operation matches ReadWriteOperation::SetXattr { path, name } ==> name@.is_suffix_of(
            operation.body(),
        ),
        operation matches ReadWriteOperation::RemoveXattr { path, name } ==> name@.is_suffix_of(
            operation.body(),
        ),
{
}

/// A change of one attribute alone reads the same however it is asked for, and
/// so does the command that would make it.
pub proof fn lemma_single_changes_read_the_same(path: SandboxPath, mode: u16, id: u32, flags: u32)
    ensures
        ({
            let all = MetadataOperation::SetAttr {
                path,
                mode: Some(mode),
                uid: None,
                gid: None,
                flags: None,
                atime: None,
                mtime: None,
            };
            let one = MetadataOperation::Chmod { path, mode };
            all.hint() == one.hint() && all.body() == one.body() && all.parts() == one.parts()
        }),
        ({
            let all = MetadataOperation::SetAttr {
                path,
                mode: None,
                uid: Some(id),
                gid: None,
                flags: None,
                atime: None,
                mtime: None,
            };
            let one = MetadataOperation::Chown { path, uid: Some(id), gid: None };
            all.hint() == one.hint() && all.body() == one.body() && all.parts() == one.parts()
        }),
        ({
            let all = MetadataOperation::SetAttr {
                path,
                mode: None,
                uid: None,
                gid: Some(id),
                flags: None,
                atime: None,
                mtime: None,
            };
            let one = MetadataOperation::Chown { path, uid: None, gid: Some(id) };
            all.hint() == one.hint() && all.body() == one.body() && all.parts() == one.parts()
        }),
        ({
            let all = MetadataOperation::SetAttr {
                path,
                mode: None,
                uid: None,
                gid: None,
                flags: Some(flags),
                atime: None,
                mtime: None,
            };
            let one = MetadataOperation::Chattr { path, flags };
            all.hint() == one.hint() && all.parts() == one.parts()
        }),
{
    let none = Seq::<Seq<char>>::empty();
    reveal_strlit(" SETATTR ");
    reveal_strlit("mode=");
    reveal_strlit(" SETATTR mode=");
    let field = "mode="@ + operation::mode_text(mode);
    let fields = operation::setattr_fields(Some(mode), None, None, None, None, None);
    assert(fields =~= seq![field]);
    assert(" SETATTR "@ + "mode="@ =~= " SETATTR mode="@);
    assert("path="@ + path.text() + " SETATTR "@ + field =~= "path="@ + path.text()
        + " SETATTR mode="@ + operation::mode_text(mode));
    let all = MetadataOperation::SetAttr {
        path,
        mode: Some(mode),
        uid: None,
        gid: None,
        flags: None,
        atime: None,
        mtime: None,
    };
    assert(all.parts() =~= (MetadataOperation::Chmod { path, mode }).parts());
    let all = MetadataOperation::SetAttr {
        path,
        mode: None,
        uid: Some(id),
        gid: None,
        flags: None,
        atime: None,
        mtime: None,
    };
    assert(all.parts() =~= (MetadataOperation::Chown { path, uid: Some(id), gid: None }).parts());
    let all = MetadataOperation::SetAttr {
        path,
        mode: None,
        uid: None,
        gid: Some(id),
        flags: None,
        atime: None,
        mtime: None,
    };
    assert(all.parts() =~= (MetadataOperation::Chown { path, uid: None, gid: Some(id) }).parts());
    let all = MetadataOperation::SetAttr {
        path,
        mode: None,
        uid: None,
        gid: None,
        flags: Some(flags),
        atime: None,
        mtime: None,
    };
    assert(all.parts() =~= (MetadataOperation::Chattr { path, flags }).parts());
}

/// A log line stands behind its time and ends with what it is about; the line
/// about a request that starts to wait ends with the description of it.
pub proof fn lemma_lines_end_with_their_body(
    time: LogTime,
    id: u64,
    attach_id: Option<u64>,
    body: Seq<char>,
)
    ensures
        body.is_suffix_of(log::log_line(time, id, body)),
        ("["@ + log::stamp(time)).is_prefix_of(log::log_line(time, id, body)),
        body.is_suffix_of(metadata_request::pending_body(attach_id, body)),
{
}

/// A runtime directory that is named wins over everything else, and one below
/// the user's own over the rest. Where neither is there, users other than the
/// superuser have different ones.
pub proof fn lemma_runtime_directories(
    named: Option<Seq<char>>,
    user_runtime: Option<Seq<char>>,
    a: u32,
    b: u32,
    temp: Seq<char>,
)
    ensures
        named is Some ==> runtime::chosen_runtime_dir(named, user_runtime, a, temp) == named->0,
        named is None && user_runtime is Some ==> runtime::chosen_runtime_dir(
            named,
            user_runtime,
            a,
            temp,
        ) == host::host_join(user_runtime->0, "sandboxfs"@),
        a != 0 && b != 0 && runtime::chosen_runtime_dir(None, None, a, temp)
            == runtime::chosen_runtime_dir(None, None, b, temp) ==> a == b,
        a == 0 ==> runtime::chosen_runtime_dir(None, None, a, temp) == "/run/sandboxfs"@,
        a != 0 && temp.len() > 0 ==> temp.is_prefix_of(
            runtime::chosen_runtime_dir(None, None, a, temp),
        ),
{
    reveal_strlit("sandboxfs-");
    let x = "sandboxfs-"@ + text::decimal(a as nat);
    let y = "sandboxfs-"@ + text::decimal(b as nat);
    assert(x[0] == 's' && y[0] == 's');
    let one = host::host_join(temp, x);
    let two = host::host_join(temp, y);
    crate::laws::writing::lemma_decimal_is_read_back(a as nat);
    crate::laws::writing::lemma_decimal_is_read_back(b as nat);
    let base = if temp.len() == 0 || temp.last() == '/' {
        temp
    } else {
        temp.push('/')
    };
    assert(!host::from_root(x) && !host::from_root(y));
    assert(one == base + x && two == base + y);
    if a != 0 && b != 0 && one == two {
        assert((base + x).len() == (base + y).len());
        assert(x.len() == y.len());
        let start = one.len() - text::decimal(a as nat).len();
        assert(one.skip(start) =~= text::decimal(a as nat));
        assert(two.skip(start) =~= text::decimal(b as nat));
    }
}

/// A sandbox can have every name that is not empty and holds neither a separator
/// nor a NUL.
pub proof fn lemma_valid_names(name: Seq<char>, c: char)
    ensures
        !session::valid_name(Seq::empty()),
        !name.contains('/') && !name.contains('\0') && name.len() > 0 ==> session::valid_name(name),
        session::valid_name(name.push(c)) <==> c != '/' && c != '\0' && (name.len() == 0
            || session::valid_name(name)),
{
    crate::table::lemma_push_contains(name, c);
    assert(name.push(c).contains('/') <==> name.contains('/') || c == '/');
    assert(name.push(c).contains('\0') <==> name.contains('\0') || c == '\0');
}

/// The log of a sandbox with a valid name lies directly in the log directory.
pub proof fn lemma_logs_lie_in_their_directory(dir: Seq<char>, name: Seq<char>)
    requires
        session::valid_name(name),
        dir.len() > 0,
        dir.last() != '/',
    ensures
        name.len() > 0,
        host::parts(host::host_join(dir, name + ".log"@)) == host::parts(dir).push(name + ".log"@),
{
    reveal_strlit(".log");
    let file = name + ".log"@;
    assert forall|i: int| 0 <= i < file.len() implies file[i] != '/' by {
        if i < name.len() {
            assert(name.contains(name[i]));
        }
    }
    assert(!file.contains('/'));
    assert(name.contains(name[0]));
    assert(file[0] == name[0]);
    assert(file.len() > 1);
    crate::laws::writing::lemma_host_paths_step_by_step(dir, file);
}

} // verus!
