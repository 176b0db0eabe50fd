//! The settings of this device, and whom it trusts.

use crate::ids::{fresh_id, is_random_uuid};
use crate::model::{AppInfo, AppInfoView, Config, ConfigView, TCP_PORT, UDP_PORT};
use crate::text::{copy_texts, opt_text, same_text, texts};
use vstd::prelude::*;
use vstd::string::StringExecFns;

verus! {

impl ConfigView {
    /// Whether a device is trusted.
    pub open spec fn trusts(self, id: Seq<char>) -> bool {
        self.trusted_device_ids.contains(id)
    }

    /// The settings after a device was trusted or was no longer trusted.
    pub open spec fn with_trust(self, id: Seq<char>, trusted: bool) -> ConfigView {
        ConfigView {
            trusted_device_ids: if !trusted {
                without(self.trusted_device_ids, id)
            } else if self.trusts(id) {
                self.trusted_device_ids
            } else {
                self.trusted_device_ids.push(id)
            },
            ..self
        }
    }
}

/// A list of ids without one of them.
pub open spec fn without(ids: Seq<Seq<char>>, id: Seq<char>) -> Seq<Seq<char>>
    decreases ids.len(),
{
    if ids.len() == 0 {
        ids
    } else if ids.last() == id {
        without(ids.drop_last(), id)
    } else {
        without(ids.drop_last(), id).push(ids.last())
    }
}

/// Leaving an id out of a list keeps exactly the other ids.
pub proof fn lemma_without(ids: Seq<Seq<char>>, id: Seq<char>, x: Seq<char>)
    ensures
        without(ids, id).contains(x) == (ids.contains(x) && x != id),
    decreases ids.len(),
{
    if ids.len() > 0 {
        let front = ids.drop_last();
        lemma_without(front, id, x);
        let rest = without(front, id);
        assert(ids.contains(x) == (front.contains(x) || ids.last() == x)) by {
            if front.contains(x) {
                let i = choose|i: int| 0 <= i < front.len() && front[i] == x;
                assert(ids[i] == x);
            }
            if ids.last() == x {
                assert(ids[ids.len() - 1] == x);
            }
            if ids.contains(x) {
                let i = choose|i: int| 0 <= i < ids.len() && ids[i] == x;
                if i < front.len() {
                    assert(front[i] == x);
                }
            }
        }
        if ids.last() != id {
            let all = rest.push(ids.last());
            assert(all.contains(x) == (rest.contains(x) || ids.last() == x)) by {
                if rest.contains(x) {
                    let i = choose|i: int| 0 <= i < rest.len() && rest[i] == x;
                    assert(all[i] == x);
                }
                if ids.last() == x {
                    assert(all[all.len() - 1] == x);
                }
                if all.contains(x) {
                    let i = choose|i: int| 0 <= i < all.len() && all[i] == x;
                    if i < rest.len() {
                        assert(rest[i] == x);
                    }
                }
            }
        }
    }
}

/// Trusting a device, or no longer trusting it, settles whether that device is
/// trusted and changes nothing for any other.
pub proof fn lemma_trust_is_settled(config: ConfigView, id: Seq<char>, trusted: bool, x: Seq<char>)
    ensures
        config.with_trust(id, trusted).trusts(x) == (if x == id {
            trusted
        } else {
            config.trusts(x)
        }),
{
    let ids = config.trusted_device_ids;
    lemma_without(ids, id, x);
    let all = ids.push(id);
    if ids.contains(x) {
        let i = choose|i: int| 0 <= i < ids.len() && ids[i] == x;
        assert(all[i] == x);
    }
    assert(all[all.len() - 1] == id);
    if all.contains(x) {
        let i = choose|i: int| 0 <= i < all.len() && all[i] == x;
        if i < ids.len() {
            assert(ids[i] == x);
        }
    }
}

/// Doing so a second time changes nothing more.
pub proof fn lemma_trust_is_idempotent(config: ConfigView, id: Seq<char>, trusted: bool)
    ensures
        config.with_trust(id, trusted).with_trust(id, trusted) == config.with_trust(id, trusted),
{
    lemma_trust_is_settled(config, id, trusted, id);
    if !trusted {
        lemma_without_absent(without(config.trusted_device_ids, id), id);
    }
}

proof fn lemma_without_absent(ids: Seq<Seq<char>>, id: Seq<char>)
    requires
        !ids.contains(id),
    ensures
        without(ids, id) == ids,
    decreases ids.len(),
{
    if ids.len() > 0 {
        assert(ids[ids.len() - 1] != id);
        assert forall|i: int| 0 <= i < ids.drop_last().len() implies ids.drop_last()[i] != id by {
            assert(ids[i] != id);
        }
        lemma_without_absent(ids.drop_last(), id);
        assert(ids.drop_last().push(ids.last()) =~= ids);
    }
}

/// No device is listed twice as trusted, if none was before.
pub proof fn lemma_trust_lists_once(config: ConfigView, id: Seq<char>, trusted: bool)
    requires
        config.trusted_device_ids.no_duplicates(),
    ensures
        config.with_trust(id, trusted).trusted_device_ids.no_duplicates(),
{
    let ids = config.trusted_device_ids;
    if !trusted {
        lemma_without_once(ids, id);
    } else if !ids.contains(id) {
        let all = ids.push(id);
        assert forall|i: int, j: int| 0 <= i < all.len() && 0 <= j < all.len() && i != j implies
            all[i] != all[j] by {
            if i < ids.len() && j < ids.len() {
                assert(ids[i] != ids[j]);
            } else if i < ids.len() {
                assert(ids[i] != id);
            } else {
                assert(ids[j] != id);
            }
        }
    }
}

proof fn lemma_without_once(ids: Seq<Seq<char>>, id: Seq<char>)
    requires
        ids.no_duplicates(),
    ensures
        without(ids, id).no_duplicates(),
    decreases ids.len(),
{
    if ids.len() > 0 {
        let front = ids.drop_last();
        lemma_without_once(front, id);
        lemma_without(front, id, ids.last());
        assert(!front.contains(ids.last())) by {
            if front.contains(ids.last()) {
                let i = choose|i: int| 0 <= i < front.len() && front[i] == ids.last();
                assert(ids[i] == ids[ids.len() - 1]);
            }
        }
        let rest = without(front, id);
        let all = rest.push(ids.last());
        assert forall|i: int, j: int| 0 <= i < all.len() && 0 <= j < all.len() && i != j implies
            all[i] != all[j] by {
            if i < rest.len() && j < rest.len() {
                assert(rest[i] != rest[j]);
            } else if i < rest.len() {
                assert(rest.contains(rest[i]));
            } else {
                assert(rest.contains(rest[j]));
            }
        }
    }
}

impl Config {
    /// The settings of a device that starts for the first time: a new id, and
    /// nobody trusted.
    pub fn first_run(device_name: String, inbox_dir: String) -> (r: Config)
        ensures
            first_settings(r@, device_name@, inbox_dir@),
    {
        let r = Config {
            device_id: fresh_id(),
            device_name,
            inbox_dir,
            trusted_device_ids: Vec::new(),
        };
        assert(texts(r.trusted_device_ids@) =~= Seq::<Seq<char>>::empty());
        r
    }

    /// Whether a device is trusted.
    pub fn is_trusted(&self, id: &str) -> (r: bool)
        ensures
            r == self@.trusts(id@),
    {
        let ghost ids = texts(self.trusted_device_ids@);
        for i in 0..self.trusted_device_ids.len()
            invariant
                ids == texts(self.trusted_device_ids@),
                forall|j: int| 0 <= j < i ==> #[trigger] ids[j] != id@,
        {
            assert(ids[i as int] == self.trusted_device_ids[i as int]@);
            if same_text(&self.trusted_device_ids[i], id) {
                assert(ids.contains(id@));
                return true;
            }
        }
        false
    }

    /// Trusts a device, or no longer trusts it.
    pub fn set_trusted(&mut self, id: &str, trusted: bool)
        ensures
            final(self)@ == old(self)@.with_trust(id@, trusted),
    {
        let ghost before = self@;
        if trusted {
            if !self.is_trusted(id) {
                self.trusted_device_ids.push(id.to_owned());
                assert(texts(self.trusted_device_ids@) =~= before.trusted_device_ids.push(id@));
            }
            return;
        }
        let ghost ids = texts(self.trusted_device_ids@);
        let mut kept: Vec<String> = Vec::new();
        assert(texts(kept@) =~= without(ids.take(0), id@));
        for i in 0..self.trusted_device_ids.len()
            invariant
                ids == texts(self.trusted_device_ids@),
                before == self@,
                texts(kept@) == without(ids.take(i as int), id@),
        {
            let ghost old_kept = kept@;
            assert(ids.take(i + 1).drop_last() =~= ids.take(i as int));
            assert(ids.take(i + 1).last() == self.trusted_device_ids[i as int]@);
            if !same_text(&self.trusted_device_ids[i], id) {
                let item = self.trusted_device_ids[i].clone();
                kept.push(item);
                assert(texts(kept@) =~= texts(old_kept).push(item@));
            }
        }
        assert(ids.take(ids.len() as int) =~= ids);
        self.trusted_device_ids = kept;
    }

    /// Makes another directory the inbox.
    pub fn set_inbox_dir(&mut self, path: String)
        ensures
            final(self)@ == (ConfigView { inbox_dir: path@, ..old(self)@ }),
    {
        self.inbox_dir = path;
    }
}

/// What is found of the settings on disk.
#[derive(Debug)]
pub enum StoredConfig {
    /// There are none yet.
    Absent,
    /// The file cannot be read, and why.
    Unreadable { error: String },
    /// The file does not hold settings, and why.
    Invalid { error: String },
    /// These.
    Stored { config: Config },
}

/// The view of a [`StoredConfig`].
#[verifier::ext_equal]
pub enum StoredView {
    Absent,
    Unreadable { error: Seq<char> },
    Invalid { error: Seq<char> },
    Stored { config: ConfigView },
}

impl View for StoredConfig {
    type V = StoredView;

    open spec fn view(&self) -> StoredView {
        match self {
            StoredConfig::Absent => StoredView::Absent,
            StoredConfig::Unreadable { error } => StoredView::Unreadable { error: error@ },
            StoredConfig::Invalid { error } => StoredView::Invalid { error: error@ },
            StoredConfig::Stored { config } => StoredView::Stored { config: config@ },
        }
    }
}

/// The settings with which the application starts, and whether they are new and
/// are to be written.
#[derive(Debug)]
pub struct LoadedConfig {
    pub config: Config,
    pub is_new: bool,
}

/// What loading the settings comes to.
#[verifier::ext_equal]
pub enum LoadView {
    Loaded { config: ConfigView, is_new: bool },
    Failed { message: Seq<char> },
}

/// What the result of [`load_config`] comes to.
pub open spec fn load_view(r: Result<LoadedConfig, String>) -> LoadView {
    match r {
        Ok(l) => LoadView::Loaded { config: l.config@, is_new: l.is_new },
        Err(e) => LoadView::Failed { message: e@ },
    }
}

/// Whether these are settings of a device that starts for the first time.
pub open spec fn first_settings(
    config: ConfigView,
    device_name: Seq<char>,
    inbox_dir: Seq<char>,
) -> bool {
    &&& is_random_uuid(config.device_id)
    &&& config.device_name == device_name
    &&& config.inbox_dir == inbox_dir
    &&& config.trusted_device_ids == Seq::<Seq<char>>::empty()
}

/// What loading the settings may come to: those that are stored, new ones where
/// there are none, or an error where there are some that cannot be had.
pub open spec fn load_outcome(
    found: StoredView,
    device_name: Seq<char>,
    inbox_dir: Seq<char>,
    r: LoadView,
) -> bool {
    match found {
        StoredView::Absent => r matches LoadView::Loaded { config, is_new } && is_new
            && first_settings(config, device_name, inbox_dir),
        StoredView::Unreadable { error } => r == (LoadView::Failed {
            message: "读取配置失败: "@ + error,
        }),
        StoredView::Invalid { error } => r == (LoadView::Failed {
            message: "解析配置失败: "@ + error,
        }),
        StoredView::Stored { config } => r == (LoadView::Loaded { config, is_new: false }),
    }
}

/// Decides with which settings the application starts. New ones have the given
/// name and inbox.
pub fn load_config(found: StoredConfig, device_name: String, inbox_dir: String) -> (r: Result<
    LoadedConfig,
    String,
>)
    ensures
        load_outcome(found@, device_name@, inbox_dir@, load_view(r)),
{
    match found {
        StoredConfig::Absent => Ok(
            LoadedConfig { config: Config::first_run(device_name, inbox_dir), is_new: true },
        ),
        StoredConfig::Unreadable { error } => {
            let mut message = "读取配置失败: ".to_owned();
            message.append(&error);
            Err(message)
        },
        StoredConfig::Invalid { error } => {
            let mut message = "解析配置失败: ".to_owned();
            message.append(&error);
            Err(message)
        },
        StoredConfig::Stored { config } => Ok(LoadedConfig { config, is_new: false }),
    }
}

/// What the user is shown of this device.
pub fn app_info(config: &Config, local_ip: Option<String>) -> (r: AppInfo)
    ensures
        r@ == (AppInfoView {
            device_id: config@.device_id,
            device_name: config@.device_name,
            inbox_dir: config@.inbox_dir,
            local_ip: opt_text(local_ip),
            tcp_port: TCP_PORT,
            udp_port: UDP_PORT,
            trusted_device_ids: config@.trusted_device_ids,
        }),
{
    AppInfo {
        device_id: config.device_id.clone(),
        device_name: config.device_name.clone(),
        inbox_dir: config.inbox_dir.clone(),
        local_ip,
        tcp_port: TCP_PORT,
        udp_port: UDP_PORT,
        trusted_device_ids: copy_texts(&config.trusted_device_ids),
    }
}

/// Trust changes the list of trusted devices and nothing else: a device that is
/// newly trusted is added at the end, one that no longer is leaves the list, and
/// the others stay in their order.
pub proof fn lemma_trust_changes_one_entry(config: ConfigView, id: Seq<char>)
    ensures
        ({
            let ids = config.trusted_device_ids;
            let trusted = config.with_trust(id, true);
            let untrusted = config.with_trust(id, false);
            &&& config.trusts(id) == ids.contains(id)
            &&& ids.contains(id) ==> trusted == config
            &&& !ids.contains(id) ==> trusted == (ConfigView {
                trusted_device_ids: ids.push(id),
                ..config
            })
            &&& untrusted == (ConfigView {
                trusted_device_ids: ids.filter(|x: Seq<char>| x != id),
                ..config
            })
        }),
{
    lemma_without_filters(config.trusted_device_ids, id);
}

proof fn lemma_without_filters(ids: Seq<Seq<char>>, id: Seq<char>)
    ensures
        without(ids, id) == ids.filter(|x: Seq<char>| x != id),
    decreases ids.len(),
{
    reveal(Seq::filter);
    if ids.len() > 0 {
        lemma_without_filters(ids.drop_last(), id);
    } else {
        assert(ids =~= Seq::<Seq<char>>::empty());
    }
}

/// What a start comes to, for everything that may be found: settings that are
/// stored are taken as they are; without any there are new ones, with a new id,
/// the given name and inbox, and nobody trusted, and they are to be written;
/// settings that cannot be had are an error.
pub proof fn lemma_loading(
    found: StoredView,
    device_name: Seq<char>,
    inbox_dir: Seq<char>,
    r: LoadView,
)
    requires
        load_outcome(found, device_name, inbox_dir, r),
    ensures
        found matches StoredView::Stored { config } ==> r == (LoadView::Loaded {
            config,
            is_new: false,
        }),
        found is Absent ==> (r matches LoadView::Loaded { config, is_new } && {
            &&& is_new
            &&& is_random_uuid(config.device_id)
            &&& config.device_name == device_name
            &&& config.inbox_dir == inbox_dir
            &&& config.trusted_device_ids.len() == 0
        }),
        found matches StoredView::Unreadable { error } ==> (r matches LoadView::Failed { message }
            && message == "读取配置失败: "@ + error),
        found matches StoredView::Invalid { error } ==> (r matches LoadView::Failed { message }
            && message == "解析配置失败: "@ + error),
{
}

/// What loading comes to is the settings and whether they are new, or the error.
pub proof fn lemma_load_view(l: LoadedConfig, e: String)
    ensures
        load_view(Ok(l)) == (LoadView::Loaded { config: l.config@, is_new: l.is_new }),
        load_view(Err(e)) == (LoadView::Failed { message: e@ }),
        (StoredConfig::Stored { config: l.config })@ == (StoredView::Stored { config: l.config@ }),
        StoredConfig::Absent@ == StoredView::Absent,
        (StoredConfig::Invalid { error: e })@ == (StoredView::Invalid { error: e@ }),
        (StoredConfig::Unreadable { error: e })@ == (StoredView::Unreadable { error: e@ }),
{
}

} // verus!
