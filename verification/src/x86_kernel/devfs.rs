//! The device file system: the disks, by name, mounted at `/dev`.
use crate::x86_kernel::vfs::IFile;
use vstd::prelude::*;

verus! {

pub struct DevFS<D: IFile> {
    disk_devices: Vec<(String, D)>,
}

impl<D: IFile> DevFS<D> {
    /// The devices, with their names, in the order they were added.
    pub closed spec fn devices(&self) -> Seq<(Seq<char>, D)> {
        self.disk_devices@.map_values(|e: (String, D)| (e.0@, e.1))
    }

    pub fn new() -> (r: Self)
        ensures
            r.devices() == Seq::<(Seq<char>, D)>::empty(),
    {
        DevFS { disk_devices: Vec::new() }
    }

    pub fn add_device_file(&mut self, dev: D, name: String)
        ensures
            final(self).devices() == old(self).devices().push((name@, dev)),
    {
        let ghost entry = (name@, dev);
        self.disk_devices.push((name, dev));
        assert(self.devices() =~= old(self).devices().push(entry));
    }
}

} // verus!
