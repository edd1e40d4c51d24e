//! Feature-support flags of a topology.

use vstd::prelude::*;

verus! {

/// Set of flags describing actual support for this topology.
///
/// This is retrieved with [`Topology::support`] and is valid as long as the
/// topology lives.
///
/// Each flag is stored as a byte, as the native support tables do: `0` means
/// the feature is unsupported, any other value that it is supported (though
/// the corresponding call may still fail in some corner cases).
///
/// [`Topology::support`]: crate::topology::Topology::support
#[derive(Debug, Clone, Copy, PartialEq, Eq, Structural)]
pub struct Support {
    discovery: Discovery,
    cpubind: Cpubind,
    membind: Membind,
    misc: Misc,
}

impl Support {
    /// A support table built from its four groups of flags.
    pub fn new(discovery: Discovery, cpubind: Cpubind, membind: Membind, misc: Misc) -> (r:
        Support)
        ensures
            r.spec_discovery() == discovery,
            r.spec_cpubind() == cpubind,
            r.spec_membind() == membind,
            r.spec_misc() == misc,
    {
        Support { discovery, cpubind, membind, misc }
    }

    /// A support table with every feature marked unsupported.
    pub fn none() -> (r: Support)
        ensures
            r.spec_discovery() == Discovery::spec_none(),
            r.spec_cpubind() == Cpubind::spec_none(),
            r.spec_membind() == Membind::spec_none(),
            r.spec_misc() == Misc::spec_none(),
    {
        Support {
            discovery: Discovery {
                pu: 0,
                numa: 0,
                numa_memory: 0,
                disallowed_pu: 0,
                disallowed_numa: 0,
                cpukind_efficiency: 0,
            },
            cpubind: Cpubind {
                set_thisproc_cpubind: 0,
                get_thisproc_cpubind: 0,
                set_proc_cpubind: 0,
                get_proc_cpubind: 0,
                set_thisthread_cpubind: 0,
                get_thisthread_cpubind: 0,
                set_thread_cpubind: 0,
                get_thread_cpubind: 0,
                get_thisproc_last_cpu_location: 0,
                get_proc_last_cpu_location: 0,
                get_thisthread_last_cpu_location: 0,
            },
            membind: Membind {
                set_thisproc_membind: 0,
                get_thisproc_membind: 0,
                set_proc_membind: 0,
                get_proc_membind: 0,
                set_thisthread_membind: 0,
                get_thisthread_membind: 0,
                set_area_membind: 0,
                get_area_membind: 0,
                alloc_membind: 0,
                firsttouch_membind: 0,
                bind_membind: 0,
                interleave_membind: 0,
                nexttouch_membind: 0,
                migrate_membind: 0,
                get_area_memlocation: 0,
            },
            misc: Misc { imported_support: 0 },
        }
    }

    /// The discovery support group of this table.
    pub closed spec fn spec_discovery(self) -> Discovery {
        self.discovery
    }

    /// The CPU binding support group of this table.
    pub closed spec fn spec_cpubind(self) -> Cpubind {
        self.cpubind
    }

    /// The memory binding support group of this table.
    pub closed spec fn spec_membind(self) -> Membind {
        self.membind
    }

    /// The miscellaneous support group of this table.
    pub closed spec fn spec_misc(self) -> Misc {
        self.misc
    }

    /// Flags describing actual discovery support for this topology.
    pub fn discovery(&self) -> (r: &Discovery)
        ensures
            *r == self.spec_discovery(),
    {
        &self.discovery
    }

    /// Flags describing actual PU binding support for this topology.
    ///
    /// A flag may be set even if the feature isn't supported in all cases
    /// (e.g. binding to random sets of non-contiguous objects).
    pub fn cpubind(&self) -> (r: &Cpubind)
        ensures
            *r == self.spec_cpubind(),
    {
        &self.cpubind
    }

    /// Flags describing actual memory binding support for this topology.
    ///
    /// A flag may be set even if the feature isn't supported in all cases
    /// (e.g. binding to random sets of non-contiguous objects).
    pub fn membind(&self) -> (r: &Membind)
        ensures
            *r == self.spec_membind(),
    {
        &self.membind
    }

    /// Flags describing miscellaneous features.
    pub fn misc(&self) -> (r: &Misc)
        ensures
            *r == self.spec_misc(),
    {
        &self.misc
    }
}

/// Flags describing actual discovery support for this topology.
#[derive(Debug, Clone, Copy, PartialEq, Eq, Structural)]
pub struct Discovery {
    /// Detecting the number of PU objects is supported.
    pub pu: u8,
    /// Detecting the number of NUMA nodes is supported.
    pub numa: u8,
    /// Detecting the amount of memory in NUMA nodes is supported.
    pub numa_memory: u8,
    /// Detecting and identifying PU objects that are not available to the
    /// current process is supported.
    pub disallowed_pu: u8,
    /// Detecting and identifying NUMA nodes that are not available to the
    /// current process is supported.
    pub disallowed_numa: u8,
    /// Detecting the efficiency of CPU kinds is supported.
    pub cpukind_efficiency: u8,
}

impl Discovery {
    /// The group with every discovery feature marked unsupported.
    pub open spec fn spec_none() -> Discovery {
        Discovery {
            pu: 0,
            numa: 0,
            numa_memory: 0,
            disallowed_pu: 0,
            disallowed_numa: 0,
            cpukind_efficiency: 0,
        }
    }

    /// Detecting the number of PU objects is supported.
    pub fn pu(&self) -> (r: bool)
        ensures
            r == (self.pu != 0),
    {
        0 != self.pu
    }

    /// Detecting the number of NUMA nodes is supported.
    pub fn numa(&self) -> (r: bool)
        ensures
            r == (self.numa != 0),
    {
        0 != self.numa
    }

    /// Detecting the amount of memory in NUMA nodes is supported.
    pub fn numa_memory(&self) -> (r: bool)
        ensures
            r == (self.numa_memory != 0),
    {
        0 != self.numa_memory
    }

    /// Detecting and identifying PU objects that are not available to the
    /// current process is supported.
    pub fn disallowed_pu(&self) -> (r: bool)
        ensures
            r == (self.disallowed_pu != 0),
    {
        0 != self.disallowed_pu
    }

    /// Detecting and identifying NUMA nodes that are not available to the
    /// current process is supported.
    pub fn disallowed_numa(&self) -> (r: bool)
        ensures
            r == (self.disallowed_numa != 0),
    {
        0 != self.disallowed_numa
    }

    /// Detecting the efficiency of CPU kinds is supported.
    pub fn cpukind_efficiency(&self) -> (r: bool)
        ensures
            r == (self.cpukind_efficiency != 0),
    {
        0 != self.cpukind_efficiency
    }
}

/// Flags describing actual PU binding support for this topology.
///
/// A flag may be set even if the feature isn't supported in all cases (e.g.
/// binding to random sets of non-contiguous objects).
#[derive(Debug, Clone, Copy, PartialEq, Eq, Structural)]
pub struct Cpubind {
    /// Binding the whole current process is supported.
    pub set_thisproc_cpubind: u8,
    /// Getting the binding of the whole current process is supported.
    pub get_thisproc_cpubind: u8,
    /// Binding a whole given process is supported.
    pub set_proc_cpubind: u8,
    /// Getting the binding of a whole given process is supported.
    pub get_proc_cpubind: u8,
    /// Binding the current thread only is supported.
    pub set_thisthread_cpubind: u8,
    /// Getting the binding of the current thread only is supported.
    pub get_thisthread_cpubind: u8,
    /// Binding a given thread only is supported.
    pub set_thread_cpubind: u8,
    /// Getting the binding of a given thread only is supported.
    pub get_thread_cpubind: u8,
    /// Getting the last processors where the whole current process ran is
    /// supported.
    pub get_thisproc_last_cpu_location: u8,
    /// Getting the last processors where a whole process ran is supported.
    pub get_proc_last_cpu_location: u8,
    /// Getting the last processors where the current thread ran is supported.
    pub get_thisthread_last_cpu_location: u8,
}

impl Cpubind {
    /// The group with every CPU binding feature marked unsupported.
    pub open spec fn spec_none() -> Cpubind {
        Cpubind {
            set_thisproc_cpubind: 0,
            get_thisproc_cpubind: 0,
            set_proc_cpubind: 0,
            get_proc_cpubind: 0,
            set_thisthread_cpubind: 0,
            get_thisthread_cpubind: 0,
            set_thread_cpubind: 0,
            get_thread_cpubind: 0,
            get_thisproc_last_cpu_location: 0,
            get_proc_last_cpu_location: 0,
            get_thisthread_last_cpu_location: 0,
        }
    }

    /// Binding the whole current process is supported.
    pub fn set_thisproc_cpubind(&self) -> (r: bool)
        ensures
            r == (self.set_thisproc_cpubind != 0),
    {
        0 != self.set_thisproc_cpubind
    }

    /// Getting the binding of the whole current process is supported.
    pub fn get_thisproc_cpubind(&self) -> (r: bool)
        ensures
            r == (self.get_thisproc_cpubind != 0),
    {
        0 != self.get_thisproc_cpubind
    }

    /// Binding a whole given process is supported.
    pub fn set_proc_cpubind(&self) -> (r: bool)
        ensures
            r == (self.set_proc_cpubind != 0),
    {
        0 != self.set_proc_cpubind
    }

    /// Getting the binding of a whole given process is supported.
    pub fn get_proc_cpubind(&self) -> (r: bool)
        ensures
            r == (self.get_proc_cpubind != 0),
    {
        0 != self.get_proc_cpubind
    }

    /// Binding the current thread only is supported.
    pub fn set_thisthread_cpubind(&self) -> (r: bool)
        ensures
            r == (self.set_thisthread_cpubind != 0),
    {
        0 != self.set_thisthread_cpubind
    }

    /// Getting the binding of the current thread only is supported.
    pub fn get_thisthread_cpubind(&self) -> (r: bool)
        ensures
            r == (self.get_thisthread_cpubind != 0),
    {
        0 != self.get_thisthread_cpubind
    }

    /// Binding a given thread only is supported.
    pub fn set_thread_cpubind(&self) -> (r: bool)
        ensures
            r == (self.set_thread_cpubind != 0),
    {
        0 != self.set_thread_cpubind
    }

    /// Getting the binding of a given thread only is supported.
    pub fn get_thread_cpubind(&self) -> (r: bool)
        ensures
            r == (self.get_thread_cpubind != 0),
    {
        0 != self.get_thread_cpubind
    }

    /// Getting the last processors where the whole current process ran is
    /// supported.
    pub fn get_thisproc_last_cpu_location(&self) -> (r: bool)
        ensures
            r == (self.get_thisproc_last_cpu_location != 0),
    {
        0 != self.get_thisproc_last_cpu_location
    }

    /// Getting the last processors where a whole process ran is supported.
    pub fn get_proc_last_cpu_location(&self) -> (r: bool)
        ensures
            r == (self.get_proc_last_cpu_location != 0),
    {
        0 != self.get_proc_last_cpu_location
    }

    /// Getting the last processors where the current thread ran is supported.
    pub fn get_thisthread_last_cpu_location(&self) -> (r: bool)
        ensures
            r == (self.get_thisthread_last_cpu_location != 0),
    {
        0 != self.get_thisthread_last_cpu_location
    }
}

/// Flags describing actual memory binding support for this topology.
///
/// A flag may be set even if the feature isn't supported in all cases (e.g.
/// binding to random sets of non-contiguous objects).
#[derive(Debug, Clone, Copy, PartialEq, Eq, Structural)]
pub struct Membind {
    /// Binding the whole current process is supported.
    pub set_thisproc_membind: u8,
    /// Getting the binding of the whole current process is supported.
    pub get_thisproc_membind: u8,
    /// Binding a whole given process is supported.
    pub set_proc_membind: u8,
    /// Getting the binding of a whole given process is supported.
    pub get_proc_membind: u8,
    /// Binding the current thread only is supported.
    pub set_thisthread_membind: u8,
    /// Getting the binding of the current thread only is supported.
    pub get_thisthread_membind: u8,
    /// Binding a given memory area is supported.
    pub set_area_membind: u8,
    /// Getting the binding of a given memory area is supported.
    pub get_area_membind: u8,
    /// Allocating a bound memory area is supported.
    pub alloc_membind: u8,
    /// First-touch policy is supported.
    pub firsttouch_membind: u8,
    /// Bind policy is supported.
    pub bind_membind: u8,
    /// Interleave policy is supported.
    pub interleave_membind: u8,
    /// Next-touch migration policy is supported.
    pub nexttouch_membind: u8,
    /// Migration flags are supported.
    pub migrate_membind: u8,
    /// Getting the last NUMA nodes where a memory area was allocated is
    /// supported.
    pub get_area_memlocation: u8,
}

impl Membind {
    /// The group with every memory binding feature marked unsupported.
    pub open spec fn spec_none() -> Membind {
        Membind {
            set_thisproc_membind: 0,
            get_thisproc_membind: 0,
            set_proc_membind: 0,
            get_proc_membind: 0,
            set_thisthread_membind: 0,
            get_thisthread_membind: 0,
            set_area_membind: 0,
            get_area_membind: 0,
            alloc_membind: 0,
            firsttouch_membind: 0,
            bind_membind: 0,
            interleave_membind: 0,
            nexttouch_membind: 0,
            migrate_membind: 0,
            get_area_memlocation: 0,
        }
    }

    /// Binding the whole current process is supported.
    pub fn set_thisproc_membind(&self) -> (r: bool)
        ensures
            r == (self.set_thisproc_membind != 0),
    {
        0 != self.set_thisproc_membind
    }

    /// Getting the binding of the whole current process is supported.
    pub fn get_thisproc_membind(&self) -> (r: bool)
        ensures
            r == (self.get_thisproc_membind != 0),
    {
        0 != self.get_thisproc_membind
    }

    /// Binding a whole given process is supported.
    pub fn set_proc_membind(&self) -> (r: bool)
        ensures
            r == (self.set_proc_membind != 0),
    {
        0 != self.set_proc_membind
    }

    /// Getting the binding of a whole given process is supported.
    pub fn get_proc_membind(&self) -> (r: bool)
        ensures
            r == (self.get_proc_membind != 0),
    {
        0 != self.get_proc_membind
    }

    /// Binding the current thread only is supported.
    pub fn set_thisthread_membind(&self) -> (r: bool)
        ensures
            r == (self.set_thisthread_membind != 0),
    {
        0 != self.set_thisthread_membind
    }

    /// Getting the binding of the current thread only is supported.
    pub fn get_thisthread_membind(&self) -> (r: bool)
        ensures
            r == (self.get_thisthread_membind != 0),
    {
        0 != self.get_thisthread_membind
    }

    /// Binding a given memory area is supported.
    pub fn set_area_membind(&self) -> (r: bool)
        ensures
            r == (self.set_area_membind != 0),
    {
        0 != self.set_area_membind
    }

    /// Getting the binding of a given memory area is supported.
    pub fn get_area_membind(&self) -> (r: bool)
        ensures
            r == (self.get_area_membind != 0),
    {
        0 != self.get_area_membind
    }

    /// Allocating a bound memory area is supported.
    pub fn alloc_membind(&self) -> (r: bool)
        ensures
            r == (self.alloc_membind != 0),
    {
        0 != self.alloc_membind
    }

    /// First-touch policy is supported.
    pub fn firsttouch_membind(&self) -> (r: bool)
        ensures
            r == (self.firsttouch_membind != 0),
    {
        0 != self.firsttouch_membind
    }

    /// Bind policy is supported.
    pub fn bind_membind(&self) -> (r: bool)
        ensures
            r == (self.bind_membind != 0),
    {
        0 != self.bind_membind
    }

    /// Interleave policy is supported.
    pub fn interleave_membind(&self) -> (r: bool)
        ensures
            r == (self.interleave_membind != 0),
    {
        0 != self.interleave_membind
    }

    /// Next-touch migration policy is supported.
    pub fn nexttouch_membind(&self) -> (r: bool)
        ensures
            r == (self.nexttouch_membind != 0),
    {
        0 != self.nexttouch_membind
    }

    /// Migration flags are supported.
    pub fn migrate_membind(&self) -> (r: bool)
        ensures
            r == (self.migrate_membind != 0),
    {
        0 != self.migrate_membind
    }

    /// Getting the last NUMA nodes where a memory area was allocated is
    /// supported.
    pub fn get_area_memlocation(&self) -> (r: bool)
        ensures
            r == (self.get_area_memlocation != 0),
    {
        0 != self.get_area_memlocation
    }
}

/// Flags describing miscellaneous features.
#[derive(Debug, Clone, Copy, PartialEq, Eq, Structural)]
pub struct Misc {
    /// Support was imported when importing another topology.
    pub imported_support: u8,
}

impl Misc {
    /// The group with every miscellaneous feature marked unsupported.
    pub open spec fn spec_none() -> Misc {
        Misc { imported_support: 0 }
    }

    /// Support was imported when importing another topology.
    pub fn imported_support(&self) -> (r: bool)
        ensures
            r == (self.imported_support != 0),
    {
        0 != self.imported_support
    }
}

} // verus!
