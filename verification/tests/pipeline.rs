use std::collections::{BTreeMap, BTreeSet};
use std::io::{Cursor, Read, Write};
use ue4ss_installer::error::Error;
use ue4ss_installer::layout::{signature_script, Place, GAME_ID};
use ue4ss_installer::pipeline::{locate_game, run, write_lua, Installer, Reply, Request, Stage, Step};
use zip::write::FileOptions;
use zip::{CompressionMethod, ZipWriter};

const SCRIPT: &str = "Pal/Binaries/Win64/UE4SS_Signatures/FName_Constructor.lua";
const SETTINGS: &str = "Pal/Binaries/Win64/UE4SS-settings.ini";
const MOD_LIST: &str = "Pal/Binaries/Win64/Mods/mods.txt";

/// What stands for the world: the directories and files under the install
/// directory, what the game library knows, and what the network gives.
struct World {
    existing: Vec<String>,
    library: Option<String>,
    download: Result<Vec<u8>, String>,
    directories: BTreeSet<String>,
    files: BTreeMap<String, Vec<u8>>,
    read_only: Vec<Place>,
    asked: Vec<String>,
    root: Option<String>,
}

fn stub_archive() -> Vec<u8> {
    let mut writer = ZipWriter::new(Cursor::new(Vec::new()));
    let options = FileOptions::default().compression_method(CompressionMethod::Stored);
    writer.start_file("UE4SS-settings.ini", options).unwrap();
    writer.write_all(b"[General]\nUseCache = 1\n[Debug]\nConsoleEnabled = 0\nGuiConsoleEnabled = 0\n").unwrap();
    writer.start_file("Mods/mods.txt", options).unwrap();
    writer.write_all(b"CheatManagerEnablerMod : 1\nBPModLoaderMod : 0\n").unwrap();
    writer.start_file("dwmapi.dll", options).unwrap();
    writer.write_all(&[0x4d, 0x5a, 0x90, 0x00]).unwrap();
    writer.finish().unwrap().into_inner()
}

fn world(existing: &[&str]) -> World {
    World {
        existing: existing.iter().map(|path| path.to_string()).collect(),
        library: None,
        download: Ok(stub_archive()),
        directories: BTreeSet::new(),
        files: BTreeMap::new(),
        read_only: Vec::new(),
        asked: Vec::new(),
        root: None,
    }
}

impl World {
    fn make(&mut self, place: Place) -> Reply {
        if self.read_only.contains(&place) {
            return Reply::Failed(String::from("permission denied"));
        }
        let mut path = String::new();
        for part in place.relative_path().split('/') {
            if !path.is_empty() {
                path.push('/');
            }
            path.push_str(part);
            self.directories.insert(path.clone());
        }
        Reply::Done
    }

    fn unpack(&mut self, mut archive: zip::ZipArchive<Cursor<Vec<u8>>>, into: Place) -> Reply {
        if self.read_only.contains(&into) {
            return Reply::Failed(String::from("permission denied"));
        }
        for index in 0..archive.len() {
            let mut entry = archive.by_index(index).unwrap();
            let mut content = Vec::new();
            entry.read_to_end(&mut content).unwrap();
            self.files.insert(format!("{}/{}", into.relative_path(), entry.name()), content);
        }
        Reply::Done
    }

    fn answer(&mut self, request: Request) -> Reply {
        match request {
            Request::DirectoryExists { path } => {
                self.asked.push(format!("exists {}", path));
                Reply::Exists(self.existing.contains(&path))
            }
            Request::LocateGame { app_id } => {
                self.asked.push(format!("locate {}", app_id));
                Reply::Located(self.library.clone())
            }
            Request::CreateDirectories { place } => {
                self.asked.push(format!("make {}", place.relative_path()));
                self.make(place)
            }
            Request::Fetch { url } => {
                self.asked.push(format!("fetch {}", url));
                match self.download.clone() {
                    Ok(body) => Reply::Contents(body),
                    Err(reason) => Reply::Failed(reason),
                }
            }
            Request::Extract { archive, into } => {
                self.asked.push(format!("extract {} into {}", archive.len(), into.relative_path()));
                self.unpack(archive, into)
            }
            Request::ReadFile { place } => {
                self.asked.push(format!("read {}", place.relative_path()));
                match self.files.get(place.relative_path()) {
                    Some(content) => Reply::Contents(content.clone()),
                    None => Reply::Failed(String::from("no such file")),
                }
            }
            Request::WriteFile { place, content } => {
                self.asked.push(format!("write {}", place.relative_path()));
                if self.read_only.contains(&place) {
                    return Reply::Failed(String::from("permission denied"));
                }
                self.files.insert(place.relative_path().to_string(), content);
                Reply::Done
            }
            Request::Finish { .. } => unreachable!(),
        }
    }

    /// Runs an installation to its end.
    fn install(&mut self, path: Option<&str>, enable_console: bool) -> Result<(), Error> {
        self.asked.clear();
        let (mut state, mut request) =
            run(Installer { path: path.map(String::from), enable_console });
        let mut last_stage = Stage::Resolve;
        loop {
            assert_eq!(matches!(request, Request::Finish { .. }), state.step() == Step::Finished);
            if let Request::Finish { outcome } = request {
                return outcome;
            }
            let names_place = !matches!(
                request,
                Request::DirectoryExists { .. } | Request::LocateGame { .. } | Request::Fetch { .. }
            );
            if names_place {
                assert!(state.directory().is_some());
            }
            self.root = state.directory().cloned();
            let stage = state.step().stage();
            assert!(stage as u8 >= last_stage as u8);
            last_stage = stage;
            let reply = self.answer(request);
            assert!(state.accepts(&reply));
            let next = state.advance(reply);
            state = next.0;
            request = next.1;
        }
    }

    fn text(&self, path: &str) -> String {
        String::from_utf8(self.files[path].clone()).unwrap()
    }
}

#[test]
fn an_installation_into_an_empty_directory_does_everything() {
    let mut world = world(&["/games/pal"]);
    let outcome = world.install(Some("/games/pal"), true);
    assert!(outcome.is_ok());
    assert_eq!(world.root.as_deref(), Some("/games/pal"));
    assert!(world.directories.contains("Pal/Binaries/Win64"));
    assert!(world.directories.contains("Pal/Content/Paks/LogicMods"));
    assert!(world.directories.contains("Pal/Binaries/Win64/UE4SS_Signatures"));
    assert_eq!(
        world.files.keys().map(String::as_str).collect::<Vec<_>>(),
        vec![
            "Pal/Binaries/Win64/Mods/mods.txt",
            "Pal/Binaries/Win64/UE4SS-settings.ini",
            "Pal/Binaries/Win64/UE4SS_Signatures/FName_Constructor.lua",
            "Pal/Binaries/Win64/dwmapi.dll",
        ]
    );
    assert_eq!(
        world.text(SETTINGS),
        "[General]\nUseCache = 1\n[Debug]\nConsoleEnabled = 1\nGuiConsoleEnabled = 0\n"
    );
    assert_eq!(world.text(MOD_LIST), "CheatManagerEnablerMod : 1\nBPModLoaderMod : 1\n");
    assert_eq!(world.files["Pal/Binaries/Win64/dwmapi.dll"], vec![0x4d, 0x5a, 0x90, 0x00]);
    assert_eq!(world.files[SCRIPT], signature_script());
    assert_eq!(
        world.asked,
        vec![
            "exists /games/pal",
            "make Pal/Binaries/Win64",
            "make Pal/Content/Paks/LogicMods",
            "fetch https://github.com/UE4SS-RE/RE-UE4SS/releases/download/v2.5.2/UE4SS_Xinput_v2.5.2.zip",
            "extract 3 into Pal/Binaries/Win64",
            "read Pal/Binaries/Win64/Mods/mods.txt",
            "write Pal/Binaries/Win64/Mods/mods.txt",
            "read Pal/Binaries/Win64/UE4SS-settings.ini",
            "write Pal/Binaries/Win64/UE4SS-settings.ini",
            "make Pal/Binaries/Win64/UE4SS_Signatures",
            "write Pal/Binaries/Win64/UE4SS_Signatures/FName_Constructor.lua",
        ]
    );
}

#[test]
fn without_the_console_the_settings_are_not_touched() {
    let mut world = world(&["/games/pal"]);
    assert!(world.install(Some("/games/pal"), false).is_ok());
    assert_eq!(
        world.text(SETTINGS),
        "[General]\nUseCache = 1\n[Debug]\nConsoleEnabled = 0\nGuiConsoleEnabled = 0\n"
    );
    assert_eq!(world.text(MOD_LIST), "CheatManagerEnablerMod : 1\nBPModLoaderMod : 1\n");
    assert_eq!(world.files[SCRIPT], signature_script());
    assert_eq!(world.asked.len(), 9);
    assert!(!world.asked.iter().any(|request| request.contains("UE4SS-settings.ini")));
}

#[test]
fn a_directory_that_does_not_exist_ends_the_run_before_anything_happens() {
    let mut world = world(&["/games/pal"]);
    let outcome = world.install(Some("/games/elsewhere"), true);
    assert!(matches!(outcome, Err(Error::MissingDirectory)));
    assert_eq!(world.asked, vec!["exists /games/elsewhere"]);
    assert!(world.directories.is_empty());
    assert!(world.files.is_empty());
}

#[test]
fn a_game_that_the_library_does_not_know_ends_the_run_before_anything_happens() {
    let mut world = world(&[]);
    let outcome = world.install(None, true);
    assert!(matches!(outcome, Err(Error::GameNotFound)));
    assert_eq!(world.asked, vec!["locate 1623730"]);
    assert!(world.directories.is_empty());
    assert!(world.files.is_empty());
}

#[test]
fn the_directory_that_the_library_names_is_used() {
    let mut world = world(&[]);
    world.library = Some(String::from("/steam/steamapps/common/Palworld"));
    assert!(world.install(None, true).is_ok());
    assert_eq!(world.root.as_deref(), Some("/steam/steamapps/common/Palworld"));
    assert_eq!(world.asked[0], "locate 1623730");
    assert_eq!(world.asked.len(), 11);
    assert_eq!(world.files[SCRIPT], signature_script());
}

#[test]
fn installing_twice_leaves_the_script_as_installing_once_does() {
    let mut world = world(&["/games/pal"]);
    assert!(world.install(Some("/games/pal"), true).is_ok());
    let once = world.files[SCRIPT].clone();
    world.files.insert(SCRIPT.to_string(), b"-- something much longer than the script that was there before, and then some more, and more, and more, and more, and more, and more, and more, and more, and more".to_vec());
    assert!(world.install(Some("/games/pal"), true).is_ok());
    assert_eq!(world.files[SCRIPT], once);
    assert_eq!(world.files[SCRIPT], signature_script());
    assert_eq!(
        world.text(SETTINGS),
        "[General]\nUseCache = 1\n[Debug]\nConsoleEnabled = 1\nGuiConsoleEnabled = 0\n"
    );
    assert_eq!(world.text(MOD_LIST), "CheatManagerEnablerMod : 1\nBPModLoaderMod : 1\n");
}

#[test]
fn a_failed_download_is_a_network_error() {
    let mut world = world(&["/games/pal"]);
    world.download = Err(String::from("connection timed out"));
    match world.install(Some("/games/pal"), true) {
        Err(Error::Reqwest(reason)) => assert_eq!(reason, "connection timed out"),
        other => panic!("{:?}", other),
    }
    assert_eq!(world.asked.len(), 4);
    assert!(world.files.is_empty());
}

#[test]
fn a_download_that_is_no_archive_is_an_archive_error() {
    let mut world = world(&["/games/pal"]);
    world.download = Ok(b"<html>rate limited</html>".to_vec());
    assert!(matches!(world.install(Some("/games/pal"), true), Err(Error::Zip(_))));
    assert_eq!(world.asked.len(), 4);
    assert!(world.files.is_empty());
}

#[test]
fn a_failed_extraction_is_an_archive_error() {
    let (state, request) = run(Installer { path: Some(String::from("/d")), enable_console: true });
    assert!(matches!(request, Request::DirectoryExists { .. }));
    let (state, _) = state.advance(Reply::Exists(true));
    let (state, _) = state.advance(Reply::Done);
    let (state, _) = state.advance(Reply::Done);
    let (state, request) = state.advance(Reply::Contents(stub_archive()));
    assert!(matches!(request, Request::Extract { into: Place::BinaryDir, .. }));
    assert_eq!(state.step(), Step::Extracting);
    let (state, request) = state.advance(Reply::Failed(String::from("disk full")));
    assert_eq!(state.step(), Step::Finished);
    match request {
        Request::Finish { outcome: Err(Error::Zip(reason)) } => assert_eq!(reason, "disk full"),
        _ => panic!("expected an archive error"),
    }
}

#[test]
fn a_directory_that_cannot_be_made_is_a_file_error() {
    for (place, asked) in [(Place::BinaryDir, 2), (Place::ContentModsDir, 3), (Place::SignatureDir, 10)] {
        let mut world = world(&["/games/pal"]);
        world.read_only = vec![place];
        match world.install(Some("/games/pal"), true) {
            Err(Error::Io(reason)) => assert_eq!(reason, "permission denied"),
            other => panic!("{:?}", other),
        }
        assert_eq!(world.asked.len(), asked);
    }
}

#[test]
fn a_file_that_cannot_be_written_is_a_file_error() {
    for (place, asked) in [(Place::ModList, 7), (Place::Settings, 9), (Place::SignatureScript, 11)] {
        let mut world = world(&["/games/pal"]);
        world.read_only = vec![place];
        match world.install(Some("/games/pal"), true) {
            Err(Error::Io(reason)) => assert_eq!(reason, "permission denied"),
            other => panic!("{:?}", other),
        }
        assert_eq!(world.asked.len(), asked);
    }
}

#[test]
fn an_archive_without_the_files_to_patch_is_a_file_error() {
    let mut writer = ZipWriter::new(Cursor::new(Vec::new()));
    let options = FileOptions::default().compression_method(CompressionMethod::Stored);
    writer.start_file("Mods/mods.txt", options).unwrap();
    writer.write_all(b"BPModLoaderMod : 0\n").unwrap();
    let only_mods = writer.finish().unwrap().into_inner();
    let mut world = world(&["/games/pal"]);
    world.download = Ok(only_mods);
    match world.install(Some("/games/pal"), true) {
        Err(Error::Io(reason)) => assert_eq!(reason, "no such file"),
        other => panic!("{:?}", other),
    }
    assert_eq!(world.asked.last().unwrap(), "read Pal/Binaries/Win64/UE4SS-settings.ini");
    assert_eq!(world.text(MOD_LIST), "BPModLoaderMod : 1\n");
    assert!(!world.files.contains_key(SCRIPT));
}

#[test]
fn an_archive_without_the_mod_list_is_a_file_error() {
    let mut writer = ZipWriter::new(Cursor::new(Vec::new()));
    let options = FileOptions::default().compression_method(CompressionMethod::Stored);
    writer.start_file("UE4SS-settings.ini", options).unwrap();
    writer.write_all(b"[Debug]\nConsoleEnabled = 0\n").unwrap();
    let only_settings = writer.finish().unwrap().into_inner();
    let mut world = world(&["/games/pal"]);
    world.download = Ok(only_settings);
    match world.install(Some("/games/pal"), true) {
        Err(error) => assert_eq!(error.message(), "no such file"),
        other => panic!("{:?}", other),
    }
    assert_eq!(world.asked.last().unwrap(), "read Pal/Binaries/Win64/Mods/mods.txt");
    assert_eq!(world.text(SETTINGS), "[Debug]\nConsoleEnabled = 0\n");
}

#[test]
fn settings_that_cannot_be_read_as_a_document_end_the_run() {
    let mut writer = ZipWriter::new(Cursor::new(Vec::new()));
    let options = FileOptions::default().compression_method(CompressionMethod::Stored);
    writer.start_file("Mods/mods.txt", options).unwrap();
    writer.write_all(b"BPModLoaderMod : 0\n").unwrap();
    writer.start_file("UE4SS-settings.ini", options).unwrap();
    writer.write_all(b"[Debug]\nConsoleEnabled = 0\nthis is no entry\n").unwrap();
    let broken = writer.finish().unwrap().into_inner();
    let mut world = world(&["/games/pal"]);
    world.download = Ok(broken);
    let outcome = world.install(Some("/games/pal"), true);
    assert!(matches!(outcome, Err(Error::Ini(3))));
    assert_eq!(outcome.unwrap_err().message(), "Settings file is malformed at line 3");
    assert_eq!(world.text(SETTINGS), "[Debug]\nConsoleEnabled = 0\nthis is no entry\n");
    assert!(!world.files.contains_key(SCRIPT));
    assert_eq!(world.asked.len(), 8);
}

#[test]
fn a_run_waits_for_the_reply_to_its_request_only() {
    let (state, _) = run(Installer { path: Some(String::from("/d")), enable_console: true });
    assert_eq!(state.step(), Step::CheckingPath);
    assert!(state.accepts(&Reply::Exists(true)));
    assert!(state.accepts(&Reply::Exists(false)));
    assert!(!state.accepts(&Reply::Done));
    assert!(!state.accepts(&Reply::Located(None)));
    assert!(!state.accepts(&Reply::Contents(Vec::new())));
    assert!(!state.accepts(&Reply::Failed(String::new())));
    let (state, _) = state.advance(Reply::Exists(true));
    assert_eq!(state.step(), Step::MakingBinaryDir);
    assert!(state.accepts(&Reply::Done));
    assert!(state.accepts(&Reply::Failed(String::new())));
    assert!(!state.accepts(&Reply::Exists(true)));
    assert!(!state.accepts(&Reply::Contents(Vec::new())));
    let (state, _) = state.advance(Reply::Done);
    let (state, _) = state.advance(Reply::Done);
    assert_eq!(state.step(), Step::Fetching);
    assert!(state.accepts(&Reply::Contents(Vec::new())));
    assert!(state.accepts(&Reply::Failed(String::new())));
    assert!(!state.accepts(&Reply::Done));
    let (state, _) = state.advance(Reply::Failed(String::from("offline")));
    assert_eq!(state.step(), Step::Finished);
    for reply in [Reply::Done, Reply::Exists(true), Reply::Located(None), Reply::Contents(Vec::new()), Reply::Failed(String::new())] {
        assert!(!state.accepts(&reply));
    }
    let (state, _) = run(Installer { path: None, enable_console: false });
    assert_eq!(state.step(), Step::Locating);
    assert!(state.directory().is_none());
    assert!(state.accepts(&Reply::Located(None)));
    assert!(!state.accepts(&Reply::Exists(true)));
}

#[test]
fn steps_belong_to_the_five_stages() {
    assert_eq!(Step::CheckingPath.stage(), Stage::Resolve);
    assert_eq!(Step::Locating.stage(), Stage::Resolve);
    assert_eq!(Step::MakingBinaryDir.stage(), Stage::Prepare);
    assert_eq!(Step::MakingContentDir.stage(), Stage::Prepare);
    assert_eq!(Step::Fetching.stage(), Stage::Deploy);
    assert_eq!(Step::Extracting.stage(), Stage::Deploy);
    assert_eq!(Step::ReadingModList.stage(), Stage::Patch);
    assert_eq!(Step::WritingModList.stage(), Stage::Patch);
    assert_eq!(Step::ReadingSettings.stage(), Stage::Patch);
    assert_eq!(Step::WritingSettings.stage(), Stage::Patch);
    assert_eq!(Step::MakingSignatureDir.stage(), Stage::Finalize);
    assert_eq!(Step::WritingScript.stage(), Stage::Finalize);
    assert_eq!(Step::Finished.stage(), Stage::Done);
}

#[test]
fn the_script_request_and_the_lookup_request_are_fixed() {
    match write_lua() {
        Request::WriteFile { place, content } => {
            assert_eq!(place, Place::SignatureScript);
            assert_eq!(content, signature_script());
        }
        _ => panic!("expected a request to write"),
    }
    match locate_game() {
        Request::LocateGame { app_id } => assert_eq!(app_id, GAME_ID),
        _ => panic!("expected a request to locate"),
    }
}

#[test]
fn an_opened_archive_is_to_be_unpacked_and_an_error_ends_the_run() {
    let fetching = || {
        let (state, _) = run(Installer { path: None, enable_console: true });
        let (state, _) = state.advance(Reply::Located(Some(String::from("/g"))));
        let (state, _) = state.advance(Reply::Done);
        let (state, _) = state.advance(Reply::Done);
        state
    };
    let archive = ue4ss_installer::archive::download_ue4ss(stub_archive()).unwrap();
    let (state, request) = fetching().unpack(Ok(archive));
    assert_eq!(state.step(), Step::Extracting);
    assert_eq!(state.directory().map(String::as_str), Some("/g"));
    match request {
        Request::Extract { archive, into } => {
            assert_eq!(into, Place::BinaryDir);
            assert_eq!(archive.into_inner().into_inner(), stub_archive());
        }
        _ => panic!("expected a request to unpack"),
    }
    let (state, request) = fetching().unpack(Err(Error::Zip(String::from("bad"))));
    assert_eq!(state.step(), Step::Finished);
    match request {
        Request::Finish { outcome: Err(Error::Zip(reason)) } => assert_eq!(reason, "bad"),
        _ => panic!("expected the end"),
    }
}
