use vstd::prelude::*;
use vstd::string::StringExecFns;

verus! {

/// The separator between path components on the target platform.
pub open spec fn separator(windows: bool) -> char {
    if windows {
        '\\'
    } else {
        '/'
    }
}

/// `dir` joined with a file name. `dir` is taken to end without a separator,
/// as the directories that this tool computes do; for such a directory this is
/// what joining a relative file name gives.
pub open spec fn joined(dir: Seq<char>, file: Seq<char>, windows: bool) -> Seq<char> {
    dir + seq![separator(windows)] + file
}

fn join_path(dir: &String, file: &String, windows: bool) -> (r: String)
    ensures
        r@ == joined(dir@, file@, windows),
{
    let mut r = dir.clone();
    if windows {
        r.append("\\");
        proof { reveal_strlit("\\"); }
    } else {
        r.append("/");
        proof { reveal_strlit("/"); }
    }
    r.append(file.as_str());
    r
}

/// The launcher files of a command: one script on Unix; a batch file and a
/// PowerShell script on Windows. `shim_dir` ends without a separator.
pub fn get_shim_paths(shim_dir: &String, command_name: &String, windows: bool) -> (r: Vec<String>)
    ensures
        windows ==> r@.len() == 2 && r@[0]@ == joined(shim_dir@, command_name@ + seq!['.', 'b', 'a', 't'], true)
            && r@[1]@ == joined(shim_dir@, command_name@ + seq!['.', 'p', 's', '1'], true),
        !windows ==> r@.len() == 1 && r@[0]@ == joined(shim_dir@, command_name@, false),
{
    let mut paths: Vec<String> = Vec::new();
    if windows {
        let mut bat = command_name.clone();
        bat.append(".bat");
        let mut ps1 = command_name.clone();
        ps1.append(".ps1");
        proof {
            reveal_strlit(".bat");
            reveal_strlit(".ps1");
        }
        paths.push(join_path(shim_dir, &bat, true));
        paths.push(join_path(shim_dir, &ps1, true));
    } else {
        paths.push(join_path(shim_dir, command_name, false));
    }
    paths
}

/// The Unix launcher: a shell script that runs the command through the
/// manager's dispatch entry point.
pub open spec fn unix_script(install_dir: Seq<char>, name: Seq<char>, path: Seq<char>) -> Seq<char> {
    "#!/bin/sh\nif [ -z \"$BVM_INSTALL_DIR\" ]; then\n  BVM_INSTALL_DIR=\""@ + install_dir
        + "\"\nfi\n\n. $BVM_INSTALL_DIR/bin/bvm\nbvm exec-command "@ + name + " \""@ + path
        + "\" \"$@\"\n"@
}

/// The Windows batch launcher.
pub open spec fn batch_script(entry: Seq<char>, name: Seq<char>, path: Seq<char>) -> Seq<char> {
    "@ECHO OFF\n\""@ + entry + "\" exec-command "@ + name + " \""@ + path + "\" %*\n"@
}

/// The Windows PowerShell launcher.
pub open spec fn powershell_script(entry: Seq<char>, name: Seq<char>, path: Seq<char>) -> Seq<
    char,
> {
    "#!/usr/bin/env pwsh\n. \""@ + entry + "\" exec-command "@ + name + " \""@ + path
        + "\" @args\n"@
}

pub fn unix_shim_script(install_dir: &String, command_name: &String, command_path: &String) -> (r:
    String)
    ensures
        r@ == unix_script(install_dir@, command_name@, command_path@),
{
    let mut r = "#!/bin/sh\nif [ -z \"$BVM_INSTALL_DIR\" ]; then\n  BVM_INSTALL_DIR=\"".to_owned();
    r.append(install_dir.as_str());
    r.append("\"\nfi\n\n. $BVM_INSTALL_DIR/bin/bvm\nbvm exec-command ");
    r.append(command_name.as_str());
    r.append(" \"");
    r.append(command_path.as_str());
    r.append("\" \"$@\"\n");
    r
}

/// `entry` is the path of the manager's batch entry point.
pub fn batch_shim_script(entry: &String, command_name: &String, command_path: &String) -> (r:
    String)
    ensures
        r@ == batch_script(entry@, command_name@, command_path@),
{
    let mut r = "@ECHO OFF\n\"".to_owned();
    r.append(entry.as_str());
    r.append("\" exec-command ");
    r.append(command_name.as_str());
    r.append(" \"");
    r.append(command_path.as_str());
    r.append("\" %*\n");
    r
}

/// `entry` is the path of the manager's PowerShell entry point.
pub fn powershell_shim_script(entry: &String, command_name: &String, command_path: &String) -> (r:
    String)
    ensures
        r@ == powershell_script(entry@, command_name@, command_path@),
{
    let mut r = "#!/usr/bin/env pwsh\n. \"".to_owned();
    r.append(entry.as_str());
    r.append("\" exec-command ");
    r.append(command_name.as_str());
    r.append(" \"");
    r.append(command_path.as_str());
    r.append("\" @args\n");
    r
}

} // verus!
