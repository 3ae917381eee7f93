use vstd::prelude::*;

verus! {

// ---------------------------------------------------------------------------
// The shell-integration contract.
//
// Registering the tool as a right-click action writes one subkey and one
// command string into the user's registry hive.  The exact key path, the
// caption and the exact command written are what the desktop shell depends
// on; they are pinned here, and the caller performing the registry writes
// takes them from these functions.
// ---------------------------------------------------------------------------

/// The registry subkey, under the user's hive, that holds the context-menu
/// action for directories.
pub open spec fn menu_key_path_spec() -> Seq<char> {
    "Software\\Classes\\Directory\\shell\\FlattenFolders"@
}

pub fn menu_key_path() -> (r: &'static str)
    ensures
        r@ == menu_key_path_spec(),
{
    "Software\\Classes\\Directory\\shell\\FlattenFolders"
}

/// The caption the context menu shows.
pub open spec fn menu_label_spec() -> Seq<char> {
    "Flatten Folders"@
}

pub fn menu_label() -> (r: &'static str)
    ensures
        r@ == menu_label_spec(),
{
    "Flatten Folders"
}

/// The command the shell runs for the selection: the quoted executable,
/// then the selected directory as its quoted argument.
pub open spec fn menu_command_spec(exe: Seq<char>) -> Seq<char> {
    "\""@ + exe + "\" \"%1\""@
}

pub fn menu_command(exe_path: &str) -> (r: String)
    ensures
        r@ == menu_command_spec(exe_path@),
{
    let mut s = String::from_str("\"");
    s.append(exe_path);
    s.append("\" \"%1\"");
    s
}

// ---------------------------------------------------------------------------
// The command-line surface.
// ---------------------------------------------------------------------------

/// What one invocation asks for.
pub enum CliAction {
    /// Register the context-menu action.
    Install,
    /// Remove the context-menu action.
    Uninstall,
    /// Flatten the named directory.
    Flatten(String),
    /// No argument given: show the usage lines.
    Usage,
}

/// Decides what an argument list asks for: the first argument picks the
/// action, and anything that is not one of the two flags is a directory
/// to flatten.
pub fn parse_cli(args: &Vec<String>) -> (r: CliAction)
    ensures
        args@.len() <= 1 ==> r is Usage,
        args@.len() >= 2 && args@[1]@ == "--install"@ ==> r is Install,
        args@.len() >= 2 && args@[1]@ == "--uninstall"@ ==> r is Uninstall,
        args@.len() >= 2 && args@[1]@ != "--install"@ && args@[1]@ != "--uninstall"@ ==> (r matches
        CliAction::Flatten(d) && d@ == args@[1]@),
{
    proof {
        reveal_strlit("--install");
        reveal_strlit("--uninstall");
        assert("--install"@.len() == 9);
        assert("--uninstall"@.len() == 11);
    }
    if args.len() < 2 {
        return CliAction::Usage;
    }
    let install_flag = String::from_str("--install");
    let uninstall_flag = String::from_str("--uninstall");
    if args[1].eq(&install_flag) {
        CliAction::Install
    } else if args[1].eq(&uninstall_flag) {
        CliAction::Uninstall
    } else {
        CliAction::Flatten(args[1].clone())
    }
}

} // verus!
