use crate::text::{clean_chars, clean_text, is_blank, trim};
use vstd::prelude::*;

verus! {

#[derive(Debug)]
pub struct AppSettings {
    pub nickname: String,
    pub download_dir: String,
}

pub struct SettingsModel {
    pub nickname: Seq<char>,
    pub download_dir: Seq<char>,
}

impl View for AppSettings {
    type V = SettingsModel;

    open spec fn view(&self) -> SettingsModel {
        SettingsModel { nickname: self.nickname@, download_dir: self.download_dir@ }
    }
}

impl Clone for AppSettings {
    fn clone(&self) -> (r: Self)
        ensures
            r@ == self@,
    {
        AppSettings { nickname: self.nickname.clone(), download_dir: self.download_dir.clone() }
    }
}

/// A nickname as kept: trimmed and cut to 32 characters.
pub fn clean_nickname(value: &str) -> (r: String)
    ensures
        r@ == clean_text(value@, 32),
{
    clean_chars(value, 32)
}

/// Settings read back from disk, with a blank nickname or download folder
/// replaced by the default.
pub open spec fn normalized(settings: SettingsModel, defaults: SettingsModel) -> SettingsModel {
    let nickname = clean_text(settings.nickname, 32);
    SettingsModel {
        nickname: if nickname.len() == 0 { defaults.nickname } else { nickname },
        download_dir: if trim(settings.download_dir).len() == 0 {
            defaults.download_dir
        } else {
            settings.download_dir
        },
    }
}

/// Cleans the nickname of settings read back from disk and fills in blank
/// fields from `defaults`.
pub fn normalize_settings(settings: AppSettings, defaults: &AppSettings) -> (r: AppSettings)
    ensures
        r@ == normalized(settings@, defaults@),
{
    let mut settings = settings;
    settings.nickname = clean_nickname(settings.nickname.as_str());
    if settings.nickname.as_str().is_empty() {
        settings.nickname = defaults.nickname.clone();
    }
    if is_blank(settings.download_dir.as_str()) {
        settings.download_dir = defaults.download_dir.clone();
    }
    settings
}

/// The nickname and download folder of this device.
pub struct SettingsService {
    settings: AppSettings,
}

impl View for SettingsService {
    type V = SettingsModel;

    closed spec fn view(&self) -> SettingsModel {
        self.settings@
    }
}

impl SettingsService {
    /// A service that holds the given settings.
    pub fn new(settings: AppSettings) -> (r: Self)
        ensures
            r@ == settings@,
    {
        SettingsService { settings }
    }

    /// The current settings.
    pub fn get(&self) -> (r: AppSettings)
        ensures
            r@ == self@,
    {
        self.settings.clone()
    }

    /// The current nickname.
    pub fn nickname(&self) -> (r: String)
        ensures
            r@ == self@.nickname,
    {
        self.get().nickname
    }

    /// The folder downloads are saved to.
    pub fn download_dir(&self) -> (r: String)
        ensures
            r@ == self@.download_dir,
    {
        self.get().download_dir
    }

    /// Sets the nickname, trimmed and cut to 32 characters; a blank one is refused.
    pub fn update_nickname(&mut self, nickname: String) -> (r: Result<AppSettings, String>)
        ensures
            clean_text(nickname@, 32).len() == 0 ==> (r matches Err(e) && e@ == "昵称不能为空"@
                && final(self)@ == old(self)@),
            clean_text(nickname@, 32).len() > 0 ==> (r matches Ok(s) && final(self)@ == (SettingsModel {
                nickname: clean_text(nickname@, 32),
                ..old(self)@
            }) && s@ == final(self)@),
    {
        let nickname = clean_nickname(nickname.as_str());
        if nickname.as_str().is_empty() {
            return Err("昵称不能为空".to_string());
        }
        self.settings.nickname = nickname;
        Ok(self.get())
    }

    /// Sets the folder downloads are saved to.
    pub fn update_download_dir(&mut self, dir: String) -> (r: AppSettings)
        ensures
            final(self)@ == (SettingsModel { download_dir: dir@, ..old(self)@ }),
            r@ == final(self)@,
    {
        self.settings.download_dir = dir;
        self.get()
    }
}

} // verus!
