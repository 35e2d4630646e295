//! Handling the backup disk once it appears: mount it, back up, unmount it.
use vstd::prelude::*;

use crate::text::string_views;

verus! {

/// The mountpoint of a mounted disk, while it is still to be unmounted.
pub struct Mounted {
    mountpoint: Option<String>,
}

impl View for Mounted {
    type V = Option<Seq<char>>;

    closed spec fn view(&self) -> Option<Seq<char>> {
        match self.mountpoint {
            Some(m) => Some(m@),
            None => None,
        }
    }
}

impl Mounted {
    /// A disk mounted at `mountpoint`.
    pub fn new(mountpoint: String) -> (m: Mounted)
        ensures
            m@ == Some(mountpoint@),
    {
        Mounted { mountpoint: Some(mountpoint) }
    }

    /// Nothing mounted.
    pub fn none() -> (m: Mounted)
        ensures
            m@ is None,
    {
        Mounted { mountpoint: None }
    }

    /// Unmounting: hands out the mountpoint that is still to be unmounted, for the unmount
    /// call itself, and leaves nothing to unmount (a second call gives `None`).
    pub fn unmount(&mut self) -> (mp: Option<String>)
        ensures
            final(self)@ is None,
            match mp {
                Some(s) => old(self)@ == Some(s@),
                None => old(self)@ is None,
            },
    {
        let mp = match &self.mountpoint {
            Some(s) => Some(s.clone()),
            None => None,
        };
        self.mountpoint = None;
        mp
    }
}

/// What handling the disk waits for.
#[derive(Debug, Clone, Copy, PartialEq, Eq, Structural)]
pub enum DeviceStage {
    CreatingMountpoint,
    Mounting,
    BackingUp,
    Unmounting,
    Releasing,
    Detaching,
    Finished,
}

/// The operation handling the disk asks for next.
pub enum DeviceOp {
    /// Create the mountpoint and its parents.
    CreateDirAll(String),
    /// Mount the device as ext4 at the mountpoint, with set-user-id bits, device files and
    /// execution disabled.
    Mount { device: String, mountpoint: String },
    /// Run the backup.
    RunBackup,
    /// Unmount the mountpoint; a failure is reported.
    Unmount(String),
    /// Unmount the mountpoint after the backup failed; a failure is only logged.
    ReleaseUnmount(String),
    /// Unmount the mountpoint lazily (detached) after a plain unmount failed; a failure is
    /// only logged.
    DetachUnmount(String),
    /// Handling is over: the contexts of the failure, innermost first, if any.
    Finish(Result<(), Vec<String>>),
}

/// An operation on the disk, as a mathematical value.
pub enum DeviceOpView {
    CreateDirAll(Seq<char>),
    Mount { device: Seq<char>, mountpoint: Seq<char> },
    RunBackup,
    Unmount(Seq<char>),
    ReleaseUnmount(Seq<char>),
    DetachUnmount(Seq<char>),
    Finish(Result<(), Seq<Seq<char>>>),
}

/// The view of the result of handling a disk.
pub open spec fn device_result_view(r: Result<(), Vec<String>>) -> Result<(), Seq<Seq<char>>> {
    match r {
        Ok(()) => Ok(()),
        Err(c) => Err(string_views(c@)),
    }
}

impl View for DeviceOp {
    type V = DeviceOpView;

    open spec fn view(&self) -> DeviceOpView {
        match self {
            DeviceOp::CreateDirAll(p) => DeviceOpView::CreateDirAll(p@),
            DeviceOp::Mount { device, mountpoint } => DeviceOpView::Mount {
                device: device@,
                mountpoint: mountpoint@,
            },
            DeviceOp::RunBackup => DeviceOpView::RunBackup,
            DeviceOp::Unmount(p) => DeviceOpView::Unmount(p@),
            DeviceOp::ReleaseUnmount(p) => DeviceOpView::ReleaseUnmount(p@),
            DeviceOp::DetachUnmount(p) => DeviceOpView::DetachUnmount(p@),
            DeviceOp::Finish(r) => DeviceOpView::Finish(device_result_view(*r)),
        }
    }
}

/// Handling one appearance of the backup disk.
pub struct DeviceRun {
    device: String,
    mountpoint: String,
    stage: DeviceStage,
    mounted: Mounted,
    release_context: Vec<String>,
    result: Option<Result<(), Vec<String>>>,
}

/// Handling a disk, as a mathematical value.
pub struct DeviceRunView {
    pub device: Seq<char>,
    pub mountpoint: Seq<char>,
    pub stage: DeviceStage,
    pub mounted: Option<Seq<char>>,
    pub result: Option<Result<(), Seq<Seq<char>>>>,
}

impl View for DeviceRun {
    type V = DeviceRunView;

    closed spec fn view(&self) -> DeviceRunView {
        DeviceRunView {
            device: self.device@,
            mountpoint: self.mountpoint@,
            stage: self.stage,
            mounted: self.mounted@,
            result: match self.result {
                Some(r) => Some(device_result_view(r)),
                None => None,
            },
        }
    }
}

/// Handling ends with the given failure contexts.
pub open spec fn device_fail(v: DeviceRunView, contexts: Seq<Seq<char>>) -> (DeviceRunView, DeviceOpView) {
    (
        DeviceRunView { stage: DeviceStage::Finished, result: Some(Err(contexts)), ..v },
        DeviceOpView::Finish(Err(contexts)),
    )
}

/// The failure of the backup itself, reported once the disk is released.
pub open spec fn backup_failure() -> Seq<Seq<char>> {
    seq!["running backup"@]
}

/// What handling the disk does next from `v`, given whether the operation it asked for
/// succeeded.
pub open spec fn device_next(v: DeviceRunView, ok: bool) -> (DeviceRunView, DeviceOpView) {
    match v.stage {
        DeviceStage::CreatingMountpoint => if ok {
            (
                DeviceRunView { stage: DeviceStage::Mounting, ..v },
                DeviceOpView::Mount { device: v.device, mountpoint: v.mountpoint },
            )
        } else {
            device_fail(
                v,
                seq!["creating mountpoint "@ + v.mountpoint, "mounting backup disk"@],
            )
        },
        DeviceStage::Mounting => if ok {
            (
                DeviceRunView { stage: DeviceStage::BackingUp, mounted: Some(v.mountpoint), ..v },
                DeviceOpView::RunBackup,
            )
        } else {
            device_fail(
                v,
                seq![
                    "mounting "@ + v.device + " on "@ + v.mountpoint,
                    "mounting backup disk"@,
                ],
            )
        },
        DeviceStage::BackingUp => if ok {
            (
                DeviceRunView { stage: DeviceStage::Unmounting, mounted: None, ..v },
                DeviceOpView::Unmount(v.mountpoint),
            )
        } else {
            (
                DeviceRunView { stage: DeviceStage::Releasing, mounted: None, ..v },
                DeviceOpView::ReleaseUnmount(v.mountpoint),
            )
        },
        DeviceStage::Unmounting => if ok {
            (
                DeviceRunView { stage: DeviceStage::Finished, result: Some(Ok(())), ..v },
                DeviceOpView::Finish(Ok(())),
            )
        } else {
            device_fail(
                v,
                seq!["unmounting "@ + v.mountpoint, "unmounting backup disk"@],
            )
        },
        DeviceStage::Releasing => if ok {
            device_fail(v, backup_failure())
        } else {
            (
                DeviceRunView { stage: DeviceStage::Detaching, ..v },
                DeviceOpView::DetachUnmount(v.mountpoint),
            )
        },
        DeviceStage::Detaching => device_fail(v, backup_failure()),
        DeviceStage::Finished => (v, DeviceOpView::Finish(v.result->0)),
    }
}

/// The facts every step of handling a disk keeps.
pub open spec fn device_inv(v: DeviceRunView) -> bool {
    &&& (v.stage == DeviceStage::Finished <==> v.result is Some)
    &&& (v.stage == DeviceStage::BackingUp <==> v.mounted is Some)
    &&& v.stage == DeviceStage::BackingUp ==> v.mounted == Some(v.mountpoint)
}

/// Starts handling the disk that appeared at `devnode`, to be mounted at `mountpoint`: the
/// first operation creates the mountpoint.
pub fn handle_device(devnode: &String, mountpoint: &String) -> (r: (DeviceRun, DeviceOp))
    ensures
        r.0@ == (DeviceRunView {
            device: devnode@,
            mountpoint: mountpoint@,
            stage: DeviceStage::CreatingMountpoint,
            mounted: None,
            result: None,
        }),
        r.1@ == DeviceOpView::CreateDirAll(mountpoint@),
{
    let run = DeviceRun {
        device: devnode.clone(),
        mountpoint: mountpoint.clone(),
        stage: DeviceStage::CreatingMountpoint,
        mounted: Mounted::none(),
        release_context: Vec::new(),
        result: None,
    };
    (run, DeviceOp::CreateDirAll(mountpoint.clone()))
}

fn strings2(a: String, b: String) -> (r: Vec<String>)
    ensures
        string_views(r@) == seq![a@, b@],
{
    let mut r = Vec::new();
    r.push(a);
    r.push(b);
    assert(string_views(r@) =~= seq![a@, b@]);
    r
}

fn copy_all(v: &Vec<String>) -> (r: Vec<String>)
    ensures
        string_views(r@) == string_views(v@),
{
    let mut r: Vec<String> = Vec::new();
    let n = v.len();
    for i in 0..n
        invariant
            n == v.len(),
            string_views(r@) == string_views(v@).take(i as int),
    {
        let ghost before = string_views(r@);
        r.push(v[i].clone());
        assert(string_views(r@) =~= before.push(v@[i as int]@));
        assert(string_views(v@).take(i + 1) =~= string_views(v@).take(i as int).push(
            v@[i as int]@,
        ));
    }
    assert(string_views(v@).take(n as int) =~= string_views(v@));
    r
}

fn joined2(a: &str, b: &str) -> (r: String)
    ensures
        r@ == a@ + b@,
{
    let mut r = String::new();
    r.append(a);
    r.append(b);
    assert(Seq::<char>::empty() + a@ + b@ =~= a@ + b@);
    r
}

impl DeviceRun {
    #[verifier::type_invariant]
    closed spec fn inv(&self) -> bool {
        &&& device_inv(self@)
        &&& string_views(self.release_context@) == backup_failure()
            || self.stage != DeviceStage::Releasing && self.stage != DeviceStage::Detaching
    }

    fn finish(self, contexts: Vec<String>) -> (r: (DeviceRun, DeviceOp))
        requires
            self@.mounted is None,
        ensures
            (r.0@, r.1@) == device_fail(self@, string_views(contexts@)),
    {
        proof {
            use_type_invariant(&self);
        }
        let copy = copy_all(&contexts);
        (
            DeviceRun { stage: DeviceStage::Finished, result: Some(Err(contexts)), ..self },
            DeviceOp::Finish(Err(copy)),
        )
    }

    /// Takes whether the operation asked for succeeded and decides what comes next.
    pub fn step(self, ok: bool) -> (r: (DeviceRun, DeviceOp))
        ensures
            (r.0@, r.1@) == device_next(self@, ok),
    {
        proof {
            use_type_invariant(&self);
        }
        match self.stage {
            DeviceStage::CreatingMountpoint => if ok {
                let d = self.device.clone();
                let m = self.mountpoint.clone();
                (
                    DeviceRun { stage: DeviceStage::Mounting, ..self },
                    DeviceOp::Mount { device: d, mountpoint: m },
                )
            } else {
                let c = strings2(
                    joined2("creating mountpoint ", self.mountpoint.as_str()),
                    "mounting backup disk".to_string(),
                );
                self.finish(c)
            },
            DeviceStage::Mounting => if ok {
                let m = Mounted::new(self.mountpoint.clone());
                (DeviceRun { stage: DeviceStage::BackingUp, mounted: m, ..self }, DeviceOp::RunBackup)
            } else {
                let first = joined2("mounting ", self.device.as_str());
                let first = joined2(first.as_str(), " on ");
                let first = joined2(first.as_str(), self.mountpoint.as_str());
                let c = strings2(first, "mounting backup disk".to_string());
                self.finish(c)
            },
            DeviceStage::BackingUp => {
                let mut mounted = self.mounted;
                let mp = mounted.unmount();
                let mp = match mp {
                    Some(m) => m,
                    None => {
                        proof {
                            assert(false);
                        }
                        self.mountpoint.clone()
                    },
                };
                if ok {
                    (
                        DeviceRun { stage: DeviceStage::Unmounting, mounted: mounted, ..self },
                        DeviceOp::Unmount(mp),
                    )
                } else {
                    let mut rc: Vec<String> = Vec::new();
                    rc.push("running backup".to_string());
                    assert(string_views(rc@) =~= backup_failure());
                    (
                        DeviceRun {
                            stage: DeviceStage::Releasing,
                            mounted: mounted,
                            release_context: rc,
                            ..self
                        },
                        DeviceOp::ReleaseUnmount(mp),
                    )
                }
            },
            DeviceStage::Unmounting => if ok {
                (
                    DeviceRun { stage: DeviceStage::Finished, result: Some(Ok(())), ..self },
                    DeviceOp::Finish(Ok(())),
                )
            } else {
                let c = strings2(
                    joined2("unmounting ", self.mountpoint.as_str()),
                    "unmounting backup disk".to_string(),
                );
                self.finish(c)
            },
            DeviceStage::Releasing => if ok {
                let c = copy_all(&self.release_context);
                self.finish(c)
            } else {
                let m = self.mountpoint.clone();
                (DeviceRun { stage: DeviceStage::Detaching, ..self }, DeviceOp::DetachUnmount(m))
            },
            DeviceStage::Detaching => {
                let c = copy_all(&self.release_context);
                self.finish(c)
            },
            DeviceStage::Finished => {
                let r = match &self.result {
                    Some(Ok(())) => Ok(()),
                    Some(Err(c)) => Err(copy_all(c)),
                    None => {
                        proof {
                            assert(false);
                        }
                        Ok(())
                    },
                };
                (self, DeviceOp::Finish(r))
            },
        }
    }
}

/// Every step of handling a disk keeps its invariant.
pub proof fn lemma_device_step_keeps_invariant(v: DeviceRunView, ok: bool)
    requires
        device_inv(v),
    ensures
        device_inv(device_next(v, ok).0),
{
}

/// Once the disk is mounted it is unmounted whatever the backup's outcome: after a successful
/// backup by a reported unmount, after a failed one by a release that falls back to a detached
/// unmount.
pub proof fn lemma_mounted_disk_is_unmounted(v: DeviceRunView, ok: bool)
    requires
        device_inv(v),
        v.mounted is Some,
    ensures
        device_next(v, ok).1 == (if ok {
            DeviceOpView::Unmount(v.mountpoint)
        } else {
            DeviceOpView::ReleaseUnmount(v.mountpoint)
        }),
        device_next(v, ok).0.mounted is None,
{
}

/// Handling succeeds only through a successful unmount after a successful backup.
pub proof fn lemma_success_only_after_unmount(v: DeviceRunView, ok: bool)
    requires
        device_inv(v),
        v.stage != DeviceStage::Finished,
        device_next(v, ok).1 == DeviceOpView::Finish(Ok(())),
    ensures
        v.stage == DeviceStage::Unmounting,
        ok,
{
}

/// A failed backup is reported as such, whether or not releasing the disk worked.
pub proof fn lemma_failed_backup_reported(v: DeviceRunView, ok: bool)
    requires
        v.stage == DeviceStage::Releasing || v.stage == DeviceStage::Detaching,
        device_next(v, ok).1 is Finish,
    ensures
        device_next(v, ok).1 == DeviceOpView::Finish(Err(backup_failure())),
{
}

} // verus!
