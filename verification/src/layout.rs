//! What the installer puts where, and from where.
//!
//! Every path is given from the install directory of the game, with `/`
//! between its parts.

use vstd::prelude::*;
use vstd::string::*;

verus! {

/// The number under which the game library knows the game.
pub const GAME_ID: u32 = 1623730;

/// A directory or a file under the install directory.
#[derive(Clone, Copy, Debug, PartialEq, Eq, Structural)]
pub enum Place {
    /// The directory of the game's binaries, into which the runtime goes.
    BinaryDir,
    /// The directory that is kept for mods made of game content.
    ContentModsDir,
    /// The registration file of the mod loader.
    ModList,
    /// The settings file of the runtime.
    Settings,
    /// The directory of the signature scripts.
    SignatureDir,
    /// The script that finds the name constructor.
    SignatureScript,
}

impl Place {
    /// The path of the place.
    pub open spec fn path(self) -> Seq<char> {
        match self {
            Place::BinaryDir => "Pal/Binaries/Win64"@,
            Place::ContentModsDir => "Pal/Content/Paks/LogicMods"@,
            Place::ModList => "Pal/Binaries/Win64/Mods/mods.txt"@,
            Place::Settings => "Pal/Binaries/Win64/UE4SS-settings.ini"@,
            Place::SignatureDir => "Pal/Binaries/Win64/UE4SS_Signatures"@,
            Place::SignatureScript => "Pal/Binaries/Win64/UE4SS_Signatures/FName_Constructor.lua"@,
        }
    }

    /// Whether the place is a directory; the others are files.
    pub open spec fn is_directory(self) -> bool {
        self is BinaryDir || self is ContentModsDir || self is SignatureDir
    }

    /// The path of the place.
    pub fn relative_path(self) -> (path: &'static str)
        ensures
            path@ == self.path(),
    {
        match self {
            Place::BinaryDir => "Pal/Binaries/Win64",
            Place::ContentModsDir => "Pal/Content/Paks/LogicMods",
            Place::ModList => "Pal/Binaries/Win64/Mods/mods.txt",
            Place::Settings => "Pal/Binaries/Win64/UE4SS-settings.ini",
            Place::SignatureDir => "Pal/Binaries/Win64/UE4SS_Signatures",
            Place::SignatureScript => "Pal/Binaries/Win64/UE4SS_Signatures/FName_Constructor.lua",
        }
    }
}

/// `path` names something inside the directory `dir`: it is the path of the
/// directory, a `/`, and more.
pub open spec fn lies_in(path: Seq<char>, dir: Seq<char>) -> bool {
    &&& path.len() > dir.len() + 1
    &&& path.take(dir.len() as int) == dir
    &&& path[dir.len() as int] == '/'
}

/// The files that the installer changes lie in the directory of the
/// binaries, and the signature script in the directory of the scripts.
pub proof fn files_lie_in_binary_dir()
    ensures
        lies_in(Place::ModList.path(), Place::BinaryDir.path()),
        lies_in(Place::Settings.path(), Place::BinaryDir.path()),
        lies_in(Place::SignatureDir.path(), Place::BinaryDir.path()),
        lies_in(Place::SignatureScript.path(), Place::SignatureDir.path()),
        !lies_in(Place::ContentModsDir.path(), Place::BinaryDir.path()),
{
    reveal_strlit("Pal/Binaries/Win64");
    reveal_strlit("Pal/Content/Paks/LogicMods");
    reveal_strlit("Pal/Binaries/Win64/Mods/mods.txt");
    reveal_strlit("Pal/Binaries/Win64/UE4SS-settings.ini");
    reveal_strlit("Pal/Binaries/Win64/UE4SS_Signatures");
    reveal_strlit("Pal/Binaries/Win64/UE4SS_Signatures/FName_Constructor.lua");
    let bin = Place::BinaryDir.path();
    let sig = Place::SignatureDir.path();
    assert(Place::ModList.path().take(bin.len() as int) =~= bin);
    assert(Place::Settings.path().take(bin.len() as int) =~= bin);
    assert(sig.take(bin.len() as int) =~= bin);
    assert(Place::SignatureScript.path().take(sig.len() as int) =~= sig);
    assert(Place::ContentModsDir.path().take(bin.len() as int)[4] != bin[4]);
}

/// The address of the release of the runtime that is installed.
pub open spec fn archive_address() -> Seq<char> {
    "https://github.com/UE4SS-RE/RE-UE4SS/releases/download/v2.5.2/UE4SS_Xinput_v2.5.2.zip"@
}

/// The address of the release of the runtime that is installed.
pub fn archive_url() -> (url: &'static str)
    ensures
        url@ == archive_address(),
{
    "https://github.com/UE4SS-RE/RE-UE4SS/releases/download/v2.5.2/UE4SS_Xinput_v2.5.2.zip"
}

/// The bytes of the signature script.
pub open spec fn script_body() -> Seq<u8> {
    "function Register()\n  return \"48 89 5C 24 08 57 48 83 EC 30 48 8B D9 48 89 54 24 20 33 C9\"\nend\n\nfunction OnMatchFound(MatchAddress)\n  return MatchAddress\nend".spec_bytes()
}

/// The signature script: it names the byte pattern by which the runtime
/// finds the name constructor, and takes the place of the match as it is.
pub fn signature_script() -> (body: Vec<u8>)
    ensures
        body@ == script_body(),
{
    "function Register()\n  return \"48 89 5C 24 08 57 48 83 EC 30 48 8B D9 48 89 54 24 20 33 C9\"\nend\n\nfunction OnMatchFound(MatchAddress)\n  return MatchAddress\nend".as_bytes_vec()
}

} // verus!
