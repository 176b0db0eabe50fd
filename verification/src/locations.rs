//! Which directories are used, and what things are called by default.

use crate::paths::Platform;
use crate::text::{opt_text, texts};
use vstd::prelude::*;

verus! {

/// A directory that is known by an environment variable, or the current one.
#[derive(Debug, Clone, Copy, PartialEq, Eq, Structural)]
pub enum BaseDir {
    LocalAppData,
    AppData,
    UserProfile,
    XdgConfigHome,
    Home,
    CurrentDir,
}

/// Which of the environment variables for directories are set.
#[derive(Debug, Clone, Copy)]
pub struct KnownDirs {
    pub local_app_data: bool,
    pub app_data: bool,
    pub user_profile: bool,
    pub xdg_config_home: bool,
    pub home: bool,
}

/// A path below a known directory.
#[derive(Debug)]
pub struct Location {
    pub base: BaseDir,
    pub parts: Vec<String>,
}

/// The view of a [`Location`].
#[verifier::ext_equal]
pub struct LocationView {
    pub base: BaseDir,
    pub parts: Seq<Seq<char>>,
}

impl View for Location {
    type V = LocationView;

    open spec fn view(&self) -> LocationView {
        LocationView { base: self.base, parts: texts(self.parts@) }
    }
}

/// The directory below which settings are kept, if one is known.
pub open spec fn settings_base(platform: Platform, known: KnownDirs) -> Option<LocationView> {
    match platform {
        Platform::Windows => if known.local_app_data {
            Some(LocationView { base: BaseDir::LocalAppData, parts: seq![] })
        } else if known.app_data {
            Some(LocationView { base: BaseDir::AppData, parts: seq![] })
        } else if known.user_profile {
            Some(LocationView { base: BaseDir::UserProfile, parts: seq![] })
        } else {
            None
        },
        Platform::MacOs => if known.home {
            Some(
                LocationView {
                    base: BaseDir::Home,
                    parts: seq!["Library"@, "Application Support"@],
                },
            )
        } else {
            None
        },
        Platform::Other => if known.xdg_config_home {
            Some(LocationView { base: BaseDir::XdgConfigHome, parts: seq![] })
        } else if known.home {
            Some(LocationView { base: BaseDir::Home, parts: seq![".config"@] })
        } else {
            None
        },
    }
}

/// The directory of the settings and of the history.
pub fn config_dir(platform: Platform, known: KnownDirs) -> (r: Result<Location, String>)
    ensures
        match settings_base(platform, known) {
            Some(base) => r matches Ok(l) && l@ == (LocationView {
                base: base.base,
                parts: base.parts.push("PCSharer"@),
            }),
            None => r matches Err(e) && e@ == "无法确定配置目录"@,
        },
{
    let mut parts: Vec<String> = Vec::new();
    assert(texts(parts@) =~= seq![]);
    let base: BaseDir = match platform {
        Platform::Windows => if known.local_app_data {
            BaseDir::LocalAppData
        } else if known.app_data {
            BaseDir::AppData
        } else if known.user_profile {
            BaseDir::UserProfile
        } else {
            return Err("无法确定配置目录".to_owned());
        },
        Platform::MacOs => if known.home {
            parts.push("Library".to_owned());
            parts.push("Application Support".to_owned());
            assert(texts(parts@) =~= seq!["Library"@, "Application Support"@]);
            BaseDir::Home
        } else {
            return Err("无法确定配置目录".to_owned());
        },
        Platform::Other => if known.xdg_config_home {
            BaseDir::XdgConfigHome
        } else if known.home {
            parts.push(".config".to_owned());
            assert(texts(parts@) =~= seq![".config"@]);
            BaseDir::Home
        } else {
            return Err("无法确定配置目录".to_owned());
        },
    };
    let ghost before = parts@;
    parts.push("PCSharer".to_owned());
    assert(texts(parts@) =~= texts(before).push("PCSharer"@));
    Ok(Location { base, parts })
}

/// Where received files go by default: the downloads of the user, or else a
/// folder of the current directory.
pub open spec fn default_inbox(platform: Platform, known: KnownDirs) -> LocationView {
    if platform is Windows && known.user_profile {
        LocationView { base: BaseDir::UserProfile, parts: seq!["Downloads"@, "PCSharer"@] }
    } else if known.home {
        LocationView { base: BaseDir::Home, parts: seq!["Downloads"@, "PCSharer"@] }
    } else {
        LocationView { base: BaseDir::CurrentDir, parts: seq!["PCSharer-Inbox"@] }
    }
}

/// Where received files go by default.
pub fn default_inbox_dir(platform: Platform, known: KnownDirs) -> (r: Location)
    ensures
        r@ == default_inbox(platform, known),
{
    let mut parts: Vec<String> = Vec::new();
    let base: BaseDir = if platform == Platform::Windows && known.user_profile {
        BaseDir::UserProfile
    } else if known.home {
        BaseDir::Home
    } else {
        BaseDir::CurrentDir
    };
    if base == BaseDir::CurrentDir {
        parts.push("PCSharer-Inbox".to_owned());
        assert(texts(parts@) =~= seq!["PCSharer-Inbox"@]);
    } else {
        parts.push("Downloads".to_owned());
        parts.push("PCSharer".to_owned());
        assert(texts(parts@) =~= seq!["Downloads"@, "PCSharer"@]);
    }
    Location { base, parts }
}

/// The name of this device by default: that of the computer, that of the host,
/// or a fixed one.
pub fn default_device_name(computer_name: Option<String>, host_name: Option<String>) -> (r: String)
    ensures
        r@ == match opt_text(computer_name) {
            Some(name) => name,
            None => match opt_text(host_name) {
                Some(name) => name,
                None => "PC Sharer"@,
            },
        },
{
    match computer_name {
        Some(name) => name,
        None => match host_name {
            Some(name) => name,
            None => "PC Sharer".to_owned(),
        },
    }
}

/// Where settings are kept: on Windows below the first of three directories that
/// is known, on macOS in the library of the user, elsewhere below the directory
/// for settings or else in that of the user. Where none is known there is no
/// place.
pub proof fn lemma_where_settings_are(known: KnownDirs)
    ensures
        settings_base(Platform::Windows, known) == (if known.local_app_data {
            Some(LocationView { base: BaseDir::LocalAppData, parts: Seq::empty() })
        } else if known.app_data {
            Some(LocationView { base: BaseDir::AppData, parts: Seq::empty() })
        } else if known.user_profile {
            Some(LocationView { base: BaseDir::UserProfile, parts: Seq::empty() })
        } else {
            None
        }),
        known.home ==> settings_base(Platform::MacOs, known) == Some(
            LocationView {
                base: BaseDir::Home,
                parts: seq!["Library"@, "Application Support"@],
            },
        ),
        !known.home ==> settings_base(Platform::MacOs, known) is None,
        known.xdg_config_home ==> settings_base(Platform::Other, known) == Some(
            LocationView { base: BaseDir::XdgConfigHome, parts: Seq::empty() },
        ),
        !known.xdg_config_home && known.home ==> settings_base(Platform::Other, known) == Some(
            LocationView { base: BaseDir::Home, parts: seq![".config"@] },
        ),
        !known.xdg_config_home && !known.home ==> settings_base(Platform::Other, known) is None,
{
}

/// Where received files go unless the user says otherwise: to the downloads of
/// the user, in a folder of their own, if it is known where those are.
pub proof fn lemma_where_files_are_received(platform: Platform, known: KnownDirs)
    ensures
        ({
            let r = default_inbox(platform, known);
            &&& platform == Platform::Windows && known.user_profile ==> r.base
                == BaseDir::UserProfile
            &&& !(platform == Platform::Windows && known.user_profile) && known.home ==> r.base
                == BaseDir::Home
            &&& !(platform == Platform::Windows && known.user_profile) && !known.home ==> r.base
                == BaseDir::CurrentDir
            &&& r.base != BaseDir::CurrentDir ==> r.parts == seq!["Downloads"@, "PCSharer"@]
            &&& r.base == BaseDir::CurrentDir ==> r.parts == seq!["PCSharer-Inbox"@]
        }),
{
}

} // verus!
