//! Virtual machines: what each instance of the configuration comes to.

use vstd::hash_map::StringHashMap;
use vstd::prelude::*;
use vstd::string::*;

use crate::images::build_context;
use crate::paths::UnixPath;
use crate::text::copy_bytes;

verus! {

// ---------------------------------------------------------------------------------------------
// Configuration
// ---------------------------------------------------------------------------------------------

/// A drive of an instance, and the image that it holds. How it is mounted is of type `M`.
#[derive(Debug)]
pub struct Drive<M> {
    pub name: String,
    pub image: String,
    pub mount_as: M,
}

/// An instance of the configuration. The delay of its boot is of type `B`, the shape of its machine
/// of type `C`, and how its drives are mounted of type `M`.
#[derive(Debug)]
pub struct Instance<B, C, M> {
    pub boot_delay_sec: B,
    pub recreate_workdir: bool,
    pub machine: C,
    pub rootfs: Drive<M>,
    pub drives: Vec<Drive<M>>,
}

/// The kernel of the configuration.
#[derive(Debug)]
pub struct Kernel {
    pub entropy: Option<Vec<u8>>,
    pub boot_args: String,
}

/// What a virtual machine boots from.
#[derive(Debug)]
pub struct BootSource {
    pub kernel_image_path: UnixPath,
    pub boot_args: String,
}

/// A drive of a virtual machine.
#[derive(Debug)]
pub struct DriveConfig<M> {
    pub name: String,
    pub path: UnixPath,
    pub mount: M,
}

/// A virtual machine.
#[derive(Debug)]
pub struct VmConfig<B, C, M> {
    pub bin: UnixPath,
    pub boot_delay_sec: B,
    pub recreate_work_dir: bool,
    pub kernel_entropy: Option<Vec<u8>>,
    pub boot: BootSource,
    pub machine: C,
    pub rootfs: DriveConfig<M>,
    pub drives: Vec<DriveConfig<M>>,
}

/// A [`DriveConfig`] over its characters and bytes.
pub struct DriveConfigView<M> {
    pub name: Seq<char>,
    pub path: Seq<u8>,
    pub mount: M,
}

/// A [`VmConfig`] over its characters and bytes.
#[verifier::ext_equal]
pub struct VmConfigView<B, C, M> {
    pub bin: Seq<u8>,
    pub boot_delay_sec: B,
    pub recreate_work_dir: bool,
    pub kernel_entropy: Option<Seq<u8>>,
    pub kernel_image_path: Seq<u8>,
    pub boot_args: Seq<char>,
    pub machine: C,
    pub rootfs: DriveConfigView<M>,
    pub drives: Seq<DriveConfigView<M>>,
}

impl<M> View for DriveConfig<M> {
    type V = DriveConfigView<M>;

    open spec fn view(&self) -> DriveConfigView<M> {
        DriveConfigView { name: self.name@, path: self.path@, mount: self.mount }
    }
}

pub open spec fn drives_view<M>(drives: Seq<DriveConfig<M>>) -> Seq<DriveConfigView<M>> {
    drives.map_values(|drive: DriveConfig<M>| drive@)
}

pub open spec fn entropy_view(entropy: Option<Vec<u8>>) -> Option<Seq<u8>> {
    match entropy {
        Some(bytes) => Some(bytes@),
        None => None,
    }
}

impl<B, C, M> View for VmConfig<B, C, M> {
    type V = VmConfigView<B, C, M>;

    open spec fn view(&self) -> VmConfigView<B, C, M> {
        VmConfigView {
            bin: self.bin@,
            boot_delay_sec: self.boot_delay_sec,
            recreate_work_dir: self.recreate_work_dir,
            kernel_entropy: entropy_view(self.kernel_entropy),
            kernel_image_path: self.boot.kernel_image_path@,
            boot_args: self.boot.boot_args@,
            machine: self.machine,
            rootfs: self.rootfs@,
            drives: drives_view(self.drives@),
        }
    }
}

/// Where each image is.
pub struct ImagePaths {
    paths: StringHashMap<UnixPath>,
}

impl View for ImagePaths {
    type V = Map<Seq<char>, Seq<u8>>;

    closed spec fn view(&self) -> Map<Seq<char>, Seq<u8>> {
        self.paths@.map_values(|path: UnixPath| path@)
    }
}

impl ImagePaths {
    /// No image is anywhere.
    pub fn new() -> (images: ImagePaths)
        ensures
            images@ == Map::<Seq<char>, Seq<u8>>::empty(),
    {
        let images = ImagePaths { paths: StringHashMap::new() };
        assert(images@ =~= Map::<Seq<char>, Seq<u8>>::empty());
        images
    }

    /// Sets where the image `name` is.
    pub fn insert(&mut self, name: String, path: UnixPath)
        ensures
            final(self)@ == old(self)@.insert(name@, path@),
    {
        let ghost before = self@;
        self.paths.insert(name, path);
        assert(self@ =~= before.insert(name@, path@));
    }

    /// Where the image `name` is.
    pub fn get(&self, name: &str) -> (path: Option<&UnixPath>)
        ensures
            match path {
                Some(p) => self@.contains_key(name@) && self@[name@] == p@,
                None => !self@.contains_key(name@),
            },
    {
        self.paths.get(name)
    }
}

// ---------------------------------------------------------------------------------------------
// One instance
// ---------------------------------------------------------------------------------------------

/// Why an instance cannot be built: the image that is nowhere.
#[derive(Debug)]
pub enum InstanceError {
    /// The image of the root file system.
    Rootfs(String),
    /// The image of another drive.
    Drive(String),
}

/// An [`InstanceError`] over its characters.
pub enum InstanceErrorView {
    Rootfs(Seq<char>),
    Drive(Seq<char>),
}

impl View for InstanceError {
    type V = InstanceErrorView;

    open spec fn view(&self) -> InstanceErrorView {
        match self {
            InstanceError::Rootfs(image) => InstanceErrorView::Rootfs(image@),
            InstanceError::Drive(image) => InstanceErrorView::Drive(image@),
        }
    }
}

/// What is said of an [`InstanceError`].
pub open spec fn instance_error_text(error: InstanceErrorView) -> Seq<char> {
    match error {
        InstanceErrorView::Rootfs(image) => "failed to find rootfs image: "@ + image,
        InstanceErrorView::Drive(image) => "failed to find drive: "@ + image,
    }
}

impl InstanceError {
    /// What is said of the error.
    pub fn message(&self) -> (text: String)
        ensures
            text@ == instance_error_text(self@),
    {
        match self {
            InstanceError::Rootfs(image) => {
                let mut text = "failed to find rootfs image: ".to_string();
                text.append(image.as_str());
                text
            },
            InstanceError::Drive(image) => {
                let mut text = "failed to find drive: ".to_string();
                text.append(image.as_str());
                text
            },
        }
    }
}

/// What a drive comes to, if its image is somewhere.
pub open spec fn drive_spec<M>(images: Map<Seq<char>, Seq<u8>>, drive: Drive<M>) -> Option<
    DriveConfigView<M>,
> {
    if images.contains_key(drive.image@) {
        Some(
            DriveConfigView {
                name: drive.name@,
                path: images[drive.image@],
                mount: drive.mount_as,
            },
        )
    } else {
        None
    }
}

/// What the drives come to; the first without an image decides the error.
pub open spec fn drives_spec<M>(
    images: Map<Seq<char>, Seq<u8>>,
    drives: Seq<Drive<M>>,
) -> Result<Seq<DriveConfigView<M>>, InstanceErrorView>
    decreases drives.len(),
{
    if drives.len() == 0 {
        Ok(Seq::empty())
    } else {
        match drives_spec(images, drives.drop_last()) {
            Err(e) => Err(e),
            Ok(configs) => match drive_spec(images, drives.last()) {
                Some(config) => Ok(configs.push(config)),
                None => Err(InstanceErrorView::Drive(drives.last().image@)),
            },
        }
    }
}

/// What an instance comes to.
pub open spec fn instance_spec<B, C, M>(
    firecracker: Seq<u8>,
    instance: Instance<B, C, M>,
    kernel_config: Kernel,
    kernel: Seq<u8>,
    images: Map<Seq<char>, Seq<u8>>,
) -> Result<VmConfigView<B, C, M>, InstanceErrorView> {
    match drive_spec(images, instance.rootfs) {
        None => Err(InstanceErrorView::Rootfs(instance.rootfs.image@)),
        Some(rootfs) => match drives_spec(images, instance.drives@) {
            Err(e) => Err(e),
            Ok(drives) => Ok(
                VmConfigView {
                    bin: firecracker,
                    boot_delay_sec: instance.boot_delay_sec,
                    recreate_work_dir: instance.recreate_workdir,
                    kernel_entropy: entropy_view(kernel_config.entropy),
                    kernel_image_path: kernel,
                    boot_args: kernel_config.boot_args@,
                    machine: instance.machine,
                    rootfs,
                    drives,
                },
            ),
        },
    }
}

fn build_drive<M: Copy>(drive: &Drive<M>, images: &ImagePaths) -> (config: Option<DriveConfig<M>>)
    ensures
        match config {
            Some(c) => drive_spec(images@, *drive) == Some(c@),
            None => drive_spec(images@, *drive) is None,
        },
{
    match images.get(drive.image.as_str()) {
        Some(path) => Some(
            DriveConfig {
                name: drive.name.clone(),
                path: path.clone(),
                mount: drive.mount_as,
            },
        ),
        None => None,
    }
}

proof fn lemma_missing_drive<M>(images: Map<Seq<char>, Seq<u8>>, drives: Seq<Drive<M>>, n: int)
    requires
        0 <= n <= drives.len(),
        drives_spec(images, drives.take(n)) is Err,
    ensures
        drives_spec(images, drives) == drives_spec(images, drives.take(n)),
    decreases drives.len() - n,
{
    if n == drives.len() {
        assert(drives.take(n) =~= drives);
    } else {
        assert(drives.take(n + 1).drop_last() =~= drives.take(n));
        lemma_missing_drive(images, drives, n + 1);
    }
}

fn build_drives<M: Copy>(drives: &Vec<Drive<M>>, images: &ImagePaths) -> (configs: Result<
    Vec<DriveConfig<M>>,
    InstanceError,
>)
    ensures
        match configs {
            Ok(c) => drives_spec(images@, drives@) == Ok::<
                Seq<DriveConfigView<M>>,
                InstanceErrorView,
            >(drives_view(c@)),
            Err(e) => drives_spec(images@, drives@) == Err::<
                Seq<DriveConfigView<M>>,
                InstanceErrorView,
            >(e@),
        },
{
    let mut configs: Vec<DriveConfig<M>> = Vec::new();
    assert(drives_view(configs@) =~= Seq::<DriveConfigView<M>>::empty());
    for i in 0..drives.len()
        invariant
            drives_spec(images@, drives@.take(i as int)) == Ok::<
                Seq<DriveConfigView<M>>,
                InstanceErrorView,
            >(drives_view(configs@)),
    {
        let ghost before = configs@;
        assert(drives@.take(i + 1).drop_last() =~= drives@.take(i as int));
        match build_drive(&drives[i], images) {
            Some(config) => {
                configs.push(config);
                assert(drives_view(configs@) =~= drives_view(before).push(config@));
            },
            None => {
                proof {
                    lemma_missing_drive(images@, drives@, i + 1);
                }
                return Err(InstanceError::Drive(drives[i].image.clone()));
            },
        }
    }
    assert(drives@.take(drives@.len() as int) =~= drives@);
    Ok(configs)
}

/// What `instance` comes to, with the binary and the kernel at the given paths and the images where
/// `image_paths` has them.
pub fn build_instance<B: Copy, C: Copy, M: Copy>(
    firecracker: &UnixPath,
    instance: &Instance<B, C, M>,
    kernel_config: &Kernel,
    kernel: &UnixPath,
    image_paths: &ImagePaths,
) -> (config: Result<VmConfig<B, C, M>, InstanceError>)
    ensures
        match config {
            Ok(c) => instance_spec(
                firecracker@,
                *instance,
                *kernel_config,
                kernel@,
                image_paths@,
            ) == Ok::<VmConfigView<B, C, M>, InstanceErrorView>(c@),
            Err(e) => instance_spec(
                firecracker@,
                *instance,
                *kernel_config,
                kernel@,
                image_paths@,
            ) == Err::<VmConfigView<B, C, M>, InstanceErrorView>(e@),
        },
{
    let rootfs = match build_drive(&instance.rootfs, image_paths) {
        Some(rootfs) => rootfs,
        None => return Err(InstanceError::Rootfs(instance.rootfs.image.clone())),
    };
    let drives = match build_drives(&instance.drives, image_paths) {
        Ok(drives) => drives,
        Err(e) => return Err(e),
    };
    let kernel_entropy = match &kernel_config.entropy {
        Some(bytes) => Some(copy_bytes(bytes)),
        None => None,
    };
    Ok(
        VmConfig {
            bin: firecracker.clone(),
            boot_delay_sec: instance.boot_delay_sec,
            recreate_work_dir: instance.recreate_workdir,
            kernel_entropy,
            boot: BootSource {
                kernel_image_path: kernel.clone(),
                boot_args: kernel_config.boot_args.clone(),
            },
            machine: instance.machine,
            rootfs,
            drives,
        },
    )
}

/// An instance can be built exactly where the image of each of its drives is somewhere.
pub proof fn lemma_images_suffice<B, C, M>(
    firecracker: Seq<u8>,
    instance: Instance<B, C, M>,
    kernel_config: Kernel,
    kernel: Seq<u8>,
    images: Map<Seq<char>, Seq<u8>>,
)
    ensures
        instance_spec(firecracker, instance, kernel_config, kernel, images) is Ok <==> {
            &&& images.contains_key(instance.rootfs.image@)
            &&& forall|i: int|
                0 <= i < instance.drives@.len() ==> images.contains_key(
                    (#[trigger] instance.drives@[i]).image@,
                )
        },
{
    lemma_drives_suffice(images, instance.drives@);
}

proof fn lemma_drives_suffice<M>(images: Map<Seq<char>, Seq<u8>>, drives: Seq<Drive<M>>)
    ensures
        drives_spec(images, drives) is Ok <==> forall|i: int|
            0 <= i < drives.len() ==> images.contains_key((#[trigger] drives[i]).image@),
        drives_spec(images, drives) matches Ok(configs) ==> configs.len() == drives.len()
            && forall|i: int|
            0 <= i < drives.len() ==> drive_spec(images, drives[i]) == Some(#[trigger] configs[i]),
    decreases drives.len(),
{
    if drives.len() > 0 {
        let before = drives.drop_last();
        lemma_drives_suffice(images, before);
        assert forall|i: int| 0 <= i < before.len() implies #[trigger] before[i] == drives[i] by {}
        if drives_spec(images, drives) is Ok {
            assert forall|i: int| 0 <= i < drives.len() implies images.contains_key(
                (#[trigger] drives[i]).image@,
            ) by {
                if i < before.len() {
                    assert(images.contains_key(before[i].image@));
                }
            }
        } else if drives_spec(images, before) is Err {
            let i = choose|i: int|
                0 <= i < before.len() && !images.contains_key((#[trigger] before[i]).image@);
            assert(!images.contains_key(drives[i].image@));
        }
    }
}

// ---------------------------------------------------------------------------------------------
// All instances
// ---------------------------------------------------------------------------------------------

/// The virtual machines, by the names of their instances.
#[verifier::reject_recursive_types(B)]
#[verifier::reject_recursive_types(C)]
#[verifier::reject_recursive_types(M)]
pub struct Instances<B, C, M> {
    vms: StringHashMap<VmConfig<B, C, M>>,
}

impl<B, C, M> View for Instances<B, C, M> {
    type V = Map<Seq<char>, VmConfigView<B, C, M>>;

    closed spec fn view(&self) -> Map<Seq<char>, VmConfigView<B, C, M>> {
        self.vms@.map_values(|vm: VmConfig<B, C, M>| vm@)
    }
}

/// Why the virtual machines cannot be had.
#[derive(Debug)]
pub enum SetupError {
    /// The configuration has no section `firecracker`.
    NoFirecracker,
    /// The configuration has no section `kernel`.
    NoKernel,
    /// The instance `name` cannot be built.
    Build { name: String, cause: InstanceError },
    /// There is no such instance.
    UnknownInstance(String),
}

/// A [`SetupError`] over its characters.
pub enum SetupErrorView {
    NoFirecracker,
    NoKernel,
    Build { name: Seq<char>, cause: InstanceErrorView },
    UnknownInstance(Seq<char>),
}

impl View for SetupError {
    type V = SetupErrorView;

    open spec fn view(&self) -> SetupErrorView {
        match self {
            SetupError::NoFirecracker => SetupErrorView::NoFirecracker,
            SetupError::NoKernel => SetupErrorView::NoKernel,
            SetupError::Build { name, cause } => SetupErrorView::Build {
                name: name@,
                cause: cause@,
            },
            SetupError::UnknownInstance(name) => SetupErrorView::UnknownInstance(name@),
        }
    }
}

/// What is said of a [`SetupError`], before what is said of its cause.
pub open spec fn setup_error_text(error: SetupErrorView) -> Seq<char> {
    match error {
        SetupErrorView::NoFirecracker => "[firecracker] config missing"@,
        SetupErrorView::NoKernel => "[kernel] config missing"@,
        SetupErrorView::Build { name, .. } => "failed to build: "@ + name,
        SetupErrorView::UnknownInstance(name) => "Unknown instance: "@ + name,
    }
}

impl SetupError {
    /// What is said of the error, before what is said of its cause.
    pub fn message(&self) -> (text: String)
        ensures
            text@ == setup_error_text(self@),
    {
        match self {
            SetupError::NoFirecracker => "[firecracker] config missing".to_string(),
            SetupError::NoKernel => "[kernel] config missing".to_string(),
            SetupError::Build { name, .. } => build_context(name.as_str()),
            SetupError::UnknownInstance(name) => {
                let mut text = "Unknown instance: ".to_string();
                text.append(name.as_str());
                text
            },
        }
    }
}

impl<B, C, M> Instances<B, C, M> {
    /// The virtual machine of the instance `name`.
    pub fn get(&self, name: &str) -> (vm: Result<&VmConfig<B, C, M>, SetupError>)
        ensures
            match vm {
                Ok(v) => self@.contains_key(name@) && self@[name@] == v@,
                Err(e) => !self@.contains_key(name@) && e@ == SetupErrorView::UnknownInstance(
                    name@,
                ),
            },
    {
        match self.vms.get(name) {
            Some(vm) => Ok(vm),
            None => Err(SetupError::UnknownInstance(name.to_string())),
        }
    }
}

/// What the instances come to; the first that cannot be built decides the error.
pub open spec fn instances_spec<B, C, M>(
    firecracker: Seq<u8>,
    instances: Seq<(String, Instance<B, C, M>)>,
    kernel_config: Kernel,
    kernel: Seq<u8>,
    images: Map<Seq<char>, Seq<u8>>,
) -> Result<Map<Seq<char>, VmConfigView<B, C, M>>, SetupErrorView>
    decreases instances.len(),
{
    if instances.len() == 0 {
        Ok(Map::empty())
    } else {
        match instances_spec(firecracker, instances.drop_last(), kernel_config, kernel, images) {
            Err(e) => Err(e),
            Ok(vms) => match instance_spec(
                firecracker,
                instances.last().1,
                kernel_config,
                kernel,
                images,
            ) {
                Ok(vm) => Ok(vms.insert(instances.last().0@, vm)),
                Err(cause) => Err(
                    SetupErrorView::Build { name: instances.last().0@, cause },
                ),
            },
        }
    }
}

proof fn lemma_broken_instance<B, C, M>(
    firecracker: Seq<u8>,
    instances: Seq<(String, Instance<B, C, M>)>,
    kernel_config: Kernel,
    kernel: Seq<u8>,
    images: Map<Seq<char>, Seq<u8>>,
    n: int,
)
    requires
        0 <= n <= instances.len(),
        instances_spec(firecracker, instances.take(n), kernel_config, kernel, images) is Err,
    ensures
        instances_spec(firecracker, instances, kernel_config, kernel, images) == instances_spec(
            firecracker,
            instances.take(n),
            kernel_config,
            kernel,
            images,
        ),
    decreases instances.len() - n,
{
    if n == instances.len() {
        assert(instances.take(n) =~= instances);
    } else {
        assert(instances.take(n + 1).drop_last() =~= instances.take(n));
        lemma_broken_instance(firecracker, instances, kernel_config, kernel, images, n + 1);
    }
}

/// What the instances of the configuration come to, once everything that they need is found.
pub fn get_instance_config<B: Copy, C: Copy, M: Copy>(
    firecracker: &UnixPath,
    instances: &Vec<(String, Instance<B, C, M>)>,
    kernel_config: &Kernel,
    kernel: &UnixPath,
    image_paths: &ImagePaths,
) -> (configs: Result<Instances<B, C, M>, SetupError>)
    ensures
        match configs {
            Ok(c) => instances_spec(
                firecracker@,
                instances@,
                *kernel_config,
                kernel@,
                image_paths@,
            ) == Ok::<Map<Seq<char>, VmConfigView<B, C, M>>, SetupErrorView>(c@),
            Err(e) => instances_spec(
                firecracker@,
                instances@,
                *kernel_config,
                kernel@,
                image_paths@,
            ) == Err::<Map<Seq<char>, VmConfigView<B, C, M>>, SetupErrorView>(e@),
        },
{
    let mut configs = Instances { vms: StringHashMap::new() };
    assert(configs@ =~= Map::<Seq<char>, VmConfigView<B, C, M>>::empty());
    for i in 0..instances.len()
        invariant
            instances_spec(
                firecracker@,
                instances@.take(i as int),
                *kernel_config,
                kernel@,
                image_paths@,
            ) == Ok::<Map<Seq<char>, VmConfigView<B, C, M>>, SetupErrorView>(configs@),
    {
        let ghost before = configs@;
        assert(instances@.take(i + 1).drop_last() =~= instances@.take(i as int));
        let name = instances[i].0.clone();
        match build_instance(firecracker, &instances[i].1, kernel_config, kernel, image_paths) {
            Ok(vm) => {
                configs.vms.insert(name, vm);
                assert(configs@ =~= before.insert(name@, vm@));
            },
            Err(cause) => {
                proof {
                    lemma_broken_instance(
                        firecracker@,
                        instances@,
                        *kernel_config,
                        kernel@,
                        image_paths@,
                        i + 1,
                    );
                }
                return Err(SetupError::Build { name, cause });
            },
        }
    }
    assert(instances@.take(instances@.len() as int) =~= instances@);
    Ok(configs)
}

/// All instances can be had exactly where each of them can be built, and then each is what it is
/// built to, unless a later one goes by the same name.
pub proof fn lemma_instances_suffice<B, C, M>(
    firecracker: Seq<u8>,
    instances: Seq<(String, Instance<B, C, M>)>,
    kernel_config: Kernel,
    kernel: Seq<u8>,
    images: Map<Seq<char>, Seq<u8>>,
)
    ensures
        instances_spec(firecracker, instances, kernel_config, kernel, images) is Ok <==> forall|
            i: int,
        |
            0 <= i < instances.len() ==> instance_spec(
                firecracker,
                (#[trigger] instances[i]).1,
                kernel_config,
                kernel,
                images,
            ) is Ok,
        instances_spec(firecracker, instances, kernel_config, kernel, images) matches Ok(vms)
            ==> forall|i: int|
            #![trigger instances[i]]
            0 <= i < instances.len() && (forall|j: int|
                i < j < instances.len() ==> (#[trigger] instances[j]).0@ != instances[i].0@)
                ==> vms.contains_key(instances[i].0@) && instance_spec(
                firecracker,
                instances[i].1,
                kernel_config,
                kernel,
                images,
            ) == Ok::<VmConfigView<B, C, M>, InstanceErrorView>(vms[instances[i].0@]),
    decreases instances.len(),
{
    if instances.len() > 0 {
        let before = instances.drop_last();
        lemma_instances_suffice(firecracker, before, kernel_config, kernel, images);
        assert forall|i: int| 0 <= i < before.len() implies #[trigger] before[i]
            == instances[i] by {}
        let result = instances_spec(firecracker, instances, kernel_config, kernel, images);
        let built = |i: int|
            instance_spec(firecracker, instances[i].1, kernel_config, kernel, images);
        if result is Ok {
            assert forall|i: int| 0 <= i < instances.len() implies instance_spec(
                firecracker,
                (#[trigger] instances[i]).1,
                kernel_config,
                kernel,
                images,
            ) is Ok by {
                if i < before.len() {
                    assert(before[i] == instances[i]);
                }
            }
            let vms = result->Ok_0;
            assert forall|i: int|
                #![trigger instances[i]]
                0 <= i < instances.len() && (forall|j: int|
                    i < j < instances.len() ==> (#[trigger] instances[j]).0@
                        != instances[i].0@) implies vms.contains_key(instances[i].0@) && built(i)
                == Ok::<VmConfigView<B, C, M>, InstanceErrorView>(vms[instances[i].0@]) by {
                if i < before.len() {
                    assert(before[i] == instances[i]);
                    assert(instances[instances.len() - 1].0@ != instances[i].0@);
                    assert forall|j: int| i < j < before.len() implies (#[trigger] before[j]).0@
                        != before[i].0@ by {
                        assert(instances[j].0@ != instances[i].0@);
                    }
                }
            }
        } else {
            if instances_spec(firecracker, before, kernel_config, kernel, images) is Err {
                let i = choose|i: int|
                    0 <= i < before.len() && !(instance_spec(
                        firecracker,
                        (#[trigger] before[i]).1,
                        kernel_config,
                        kernel,
                        images,
                    ) is Ok);
                assert(!(built(i) is Ok) && before[i] == instances[i]);
            } else {
                assert(!(built(instances.len() - 1) is Ok));
            }
        }
    }
}

/// The first instance that cannot be built is the one that is named.
pub proof fn lemma_first_broken_is_named<B, C, M>(
    firecracker: Seq<u8>,
    instances: Seq<(String, Instance<B, C, M>)>,
    kernel_config: Kernel,
    kernel: Seq<u8>,
    images: Map<Seq<char>, Seq<u8>>,
    first: int,
)
    requires
        0 <= first < instances.len(),
        forall|i: int|
            0 <= i < first ==> instance_spec(
                firecracker,
                (#[trigger] instances[i]).1,
                kernel_config,
                kernel,
                images,
            ) is Ok,
        instance_spec(firecracker, instances[first].1, kernel_config, kernel, images) is Err,
    ensures
        instances_spec(firecracker, instances, kernel_config, kernel, images) == Err::<
            Map<Seq<char>, VmConfigView<B, C, M>>,
            SetupErrorView,
        >(
            SetupErrorView::Build {
                name: instances[first].0@,
                cause: instance_spec(
                    firecracker,
                    instances[first].1,
                    kernel_config,
                    kernel,
                    images,
                )->Err_0,
            },
        ),
{
    let before = instances.take(first);
    let with_first = instances.take(first + 1);
    assert forall|i: int| 0 <= i < before.len() implies instance_spec(
        firecracker,
        (#[trigger] before[i]).1,
        kernel_config,
        kernel,
        images,
    ) is Ok by {
        assert(before[i] == instances[i]);
    }
    lemma_instances_suffice(firecracker, before, kernel_config, kernel, images);
    assert(with_first.drop_last() =~= before);
    lemma_broken_instance(firecracker, instances, kernel_config, kernel, images, first + 1);
}

// ---------------------------------------------------------------------------------------------
// Finding what the instances need
// ---------------------------------------------------------------------------------------------

/// What is to be found next.
#[derive(Debug)]
pub enum SetupAction {
    /// The binary of firecracker.
    FindFirecracker,
    /// The kernel.
    FindKernel,
    /// The image of this name.
    FindImage(String),
    /// Nothing: everything is found.
    Ready,
    /// Nothing: the configuration lacks a section.
    Fail(SetupError),
}

/// What is looked for, over its characters.
pub enum SetupActionView {
    FindFirecracker,
    FindKernel,
    FindImage(Seq<char>),
    Ready,
    Fail(SetupErrorView),
}

impl View for SetupAction {
    type V = SetupActionView;

    open spec fn view(&self) -> SetupActionView {
        match self {
            SetupAction::FindFirecracker => SetupActionView::FindFirecracker,
            SetupAction::FindKernel => SetupActionView::FindKernel,
            SetupAction::FindImage(name) => SetupActionView::FindImage(name@),
            SetupAction::Ready => SetupActionView::Ready,
            SetupAction::Fail(error) => SetupActionView::Fail(error@),
        }
    }
}

/// How far a search has come: what the configuration has, and what was found.
#[verifier::ext_equal]
pub struct SetupState {
    pub has_firecracker: bool,
    pub has_kernel: bool,
    pub images: Seq<Seq<char>>,
    pub firecracker: Option<Seq<u8>>,
    pub kernel: Option<Seq<u8>>,
    pub image_paths: Map<Seq<char>, Seq<u8>>,
    pub next_image: nat,
}

/// What is to be found next. A section is asked for only once everything before it is found.
pub open spec fn wanted(state: SetupState) -> SetupActionView {
    if state.firecracker is None {
        if state.has_firecracker {
            SetupActionView::FindFirecracker
        } else {
            SetupActionView::Fail(SetupErrorView::NoFirecracker)
        }
    } else if state.kernel is None {
        if state.has_kernel {
            SetupActionView::FindKernel
        } else {
            SetupActionView::Fail(SetupErrorView::NoKernel)
        }
    } else if state.next_image < state.images.len() {
        SetupActionView::FindImage(state.images[state.next_image as int])
    } else {
        SetupActionView::Ready
    }
}

/// The search after what it wanted was found at `path`.
pub open spec fn with_found(state: SetupState, path: Seq<u8>) -> SetupState {
    match wanted(state) {
        SetupActionView::FindFirecracker => SetupState { firecracker: Some(path), ..state },
        SetupActionView::FindKernel => SetupState { kernel: Some(path), ..state },
        SetupActionView::FindImage(name) => SetupState {
            image_paths: state.image_paths.insert(name, path),
            next_image: state.next_image + 1,
            ..state
        },
        _ => state,
    }
}

/// What was found was found in turn: the binary, the kernel, and the first of the images.
pub open spec fn setup_wf(state: SetupState) -> bool {
    &&& state.next_image <= state.images.len()
    &&& state.kernel is Some ==> state.firecracker is Some
    &&& state.next_image > 0 ==> state.kernel is Some
    &&& forall|i: int|
        0 <= i < state.next_image ==> state.image_paths.contains_key(#[trigger] state.images[i])
}

/// A search that is over has found everything that the instances need.
pub proof fn lemma_ready_has_all(state: SetupState)
    requires
        setup_wf(state),
        wanted(state) is Ready,
    ensures
        state.firecracker is Some,
        state.kernel is Some,
        forall|i: int|
            0 <= i < state.images.len() ==> state.image_paths.contains_key(
                #[trigger] state.images[i],
            ),
{
}

/// Where everything is.
pub struct Found {
    pub firecracker: UnixPath,
    pub kernel: UnixPath,
    pub image_paths: ImagePaths,
}

/// The search for what the instances need: the binary, the kernel, and every image.
pub struct InstanceSetup<'a> {
    has_firecracker: bool,
    has_kernel: bool,
    images: &'a Vec<String>,
    firecracker: Option<UnixPath>,
    kernel: Option<UnixPath>,
    image_paths: ImagePaths,
    next_image: usize,
}

impl<'a> View for InstanceSetup<'a> {
    type V = SetupState;

    closed spec fn view(&self) -> SetupState {
        SetupState {
            has_firecracker: self.has_firecracker,
            has_kernel: self.has_kernel,
            images: crate::text::strings_view(self.images@),
            firecracker: crate::paths::path_view(self.firecracker),
            kernel: crate::paths::path_view(self.kernel),
            image_paths: self.image_paths@,
            next_image: self.next_image as nat,
        }
    }
}

impl<'a> InstanceSetup<'a> {
    /// What was found was found in turn.
    pub open spec fn wf(&self) -> bool {
        setup_wf(self@)
    }

    /// Nothing is found yet.
    pub fn new(has_firecracker: bool, has_kernel: bool, images: &'a Vec<String>) -> (setup: Self)
        ensures
            setup.wf(),
            setup@ == (SetupState {
                has_firecracker,
                has_kernel,
                images: crate::text::strings_view(images@),
                firecracker: None,
                kernel: None,
                image_paths: Map::empty(),
                next_image: 0,
            }),
    {
        InstanceSetup {
            has_firecracker,
            has_kernel,
            images,
            firecracker: None,
            kernel: None,
            image_paths: ImagePaths::new(),
            next_image: 0,
        }
    }

    /// What is to be found next.
    pub fn next(&self) -> (action: SetupAction)
        requires
            self.wf(),
        ensures
            action@ == wanted(self@),
    {
        if self.firecracker.is_none() {
            if self.has_firecracker {
                SetupAction::FindFirecracker
            } else {
                SetupAction::Fail(SetupError::NoFirecracker)
            }
        } else if self.kernel.is_none() {
            if self.has_kernel {
                SetupAction::FindKernel
            } else {
                SetupAction::Fail(SetupError::NoKernel)
            }
        } else if self.next_image < self.images.len() {
            SetupAction::FindImage(self.images[self.next_image].clone())
        } else {
            SetupAction::Ready
        }
    }

    /// Takes in where that was found.
    pub fn found(&mut self, path: UnixPath)
        requires
            old(self).wf(),
            !(wanted(old(self)@) is Ready),
            !(wanted(old(self)@) is Fail),
        ensures
            final(self).wf(),
            final(self)@ == with_found(old(self)@, path@),
    {
        let ghost before = self@;
        if self.firecracker.is_none() {
            self.firecracker = Some(path);
        } else if self.kernel.is_none() {
            self.kernel = Some(path);
        } else if self.next_image < self.images.len() {
            self.image_paths.insert(self.images[self.next_image].clone(), path);
            self.next_image = self.next_image + 1;
        }
        assert(self@ =~= with_found(before, path@));
    }

    /// Where everything is, once everything is found.
    pub fn into_found(self) -> (found: Option<Found>)
        requires
            self.wf(),
        ensures
            found is Some <==> wanted(self@) is Ready,
            found matches Some(f) ==> self@.firecracker == Some(f.firecracker@) && self@.kernel
                == Some(f.kernel@) && self@.image_paths == f.image_paths@,
    {
        if self.next_image < self.images.len() {
            return None;
        }
        match (self.firecracker, self.kernel) {
            (Some(firecracker), Some(kernel)) => Some(
                Found { firecracker, kernel, image_paths: self.image_paths },
            ),
            _ => None,
        }
    }
}

/// Images that an instance does not name do not matter to it.
pub proof fn lemma_other_images_do_not_matter<B, C, M>(
    firecracker: Seq<u8>,
    instance: Instance<B, C, M>,
    kernel_config: Kernel,
    kernel: Seq<u8>,
    images: Map<Seq<char>, Seq<u8>>,
    others: Map<Seq<char>, Seq<u8>>,
)
    requires
        same_image(images, others, instance.rootfs.image@),
        forall|i: int|
            0 <= i < instance.drives@.len() ==> same_image(
                images,
                others,
                (#[trigger] instance.drives@[i]).image@,
            ),
    ensures
        instance_spec(firecracker, instance, kernel_config, kernel, images) == instance_spec(
            firecracker,
            instance,
            kernel_config,
            kernel,
            others,
        ),
{
    lemma_same_drives(images, others, instance.drives@);
}

/// Whether the image `name` is in the same place, or nowhere, on both sides.
pub open spec fn same_image(
    images: Map<Seq<char>, Seq<u8>>,
    others: Map<Seq<char>, Seq<u8>>,
    name: Seq<char>,
) -> bool {
    &&& images.contains_key(name) <==> others.contains_key(name)
    &&& images.contains_key(name) ==> images[name] == others[name]
}

proof fn lemma_same_drives<M>(
    images: Map<Seq<char>, Seq<u8>>,
    others: Map<Seq<char>, Seq<u8>>,
    drives: Seq<Drive<M>>,
)
    requires
        forall|i: int|
            0 <= i < drives.len() ==> same_image(images, others, (#[trigger] drives[i]).image@),
    ensures
        drives_spec(images, drives) == drives_spec(others, drives),
    decreases drives.len(),
{
    if drives.len() > 0 {
        let before = drives.drop_last();
        assert forall|i: int| 0 <= i < before.len() implies same_image(
            images,
            others,
            (#[trigger] before[i]).image@,
        ) by {
            assert(before[i] == drives[i]);
        }
        assert(same_image(images, others, drives[drives.len() - 1].image@));
        lemma_same_drives(images, others, before);
    }
}

/// A machine is made of what its instance, the kernel and the paths say, each part from its own
/// place: the root file system and every drive, in order, keep their names and mounts and hold the
/// image that they name.
pub proof fn lemma_machine_of_instance<B, C, M>(
    firecracker: Seq<u8>,
    instance: Instance<B, C, M>,
    kernel_config: Kernel,
    kernel: Seq<u8>,
    images: Map<Seq<char>, Seq<u8>>,
)
    ensures
        instance_spec(firecracker, instance, kernel_config, kernel, images) matches Ok(vm) ==> {
            &&& vm.bin == firecracker
            &&& vm.boot_delay_sec == instance.boot_delay_sec
            &&& vm.recreate_work_dir == instance.recreate_workdir
            &&& kernel_config.entropy matches Some(bytes) ==> vm.kernel_entropy == Some(bytes@)
            &&& kernel_config.entropy is None ==> vm.kernel_entropy is None
            &&& vm.kernel_image_path == kernel
            &&& vm.boot_args == kernel_config.boot_args@
            &&& vm.machine == instance.machine
            &&& vm.rootfs.name == instance.rootfs.name@
            &&& vm.rootfs.path == images[instance.rootfs.image@]
            &&& vm.rootfs.mount == instance.rootfs.mount_as
            &&& vm.drives.len() == instance.drives@.len()
            &&& forall|i: int|
                0 <= i < vm.drives.len() ==> {
                    &&& (#[trigger] vm.drives[i]).name == instance.drives@[i].name@
                    &&& vm.drives[i].path == images[instance.drives@[i].image@]
                    &&& vm.drives[i].mount == instance.drives@[i].mount_as
                }
        },
{
    lemma_drives_suffice(images, instance.drives@);
    if let Ok(vm) = instance_spec(firecracker, instance, kernel_config, kernel, images) {
        assert forall|i: int| 0 <= i < vm.drives.len() implies {
            &&& (#[trigger] vm.drives[i]).name == instance.drives@[i].name@
            &&& vm.drives[i].path == images[instance.drives@[i].image@]
            &&& vm.drives[i].mount == instance.drives@[i].mount_as
        } by {
            assert(drive_spec(images, instance.drives@[i]) == Some(vm.drives[i]));
        }
    }
}

/// Where the image of the root file system is nowhere, it is the one that is named; otherwise the
/// first of the drives whose image is nowhere names it.
pub proof fn lemma_missing_image_is_named<B, C, M>(
    firecracker: Seq<u8>,
    instance: Instance<B, C, M>,
    kernel_config: Kernel,
    kernel: Seq<u8>,
    images: Map<Seq<char>, Seq<u8>>,
    first: int,
)
    ensures
        !images.contains_key(instance.rootfs.image@) ==> instance_spec(
            firecracker,
            instance,
            kernel_config,
            kernel,
            images,
        ) == Err::<VmConfigView<B, C, M>, InstanceErrorView>(
            InstanceErrorView::Rootfs(instance.rootfs.image@),
        ),
        images.contains_key(instance.rootfs.image@) && 0 <= first < instance.drives@.len()
            && !images.contains_key(instance.drives@[first].image@) && (forall|i: int|
            0 <= i < first ==> images.contains_key((#[trigger] instance.drives@[i]).image@))
            ==> instance_spec(firecracker, instance, kernel_config, kernel, images) == Err::<
            VmConfigView<B, C, M>,
            InstanceErrorView,
        >(InstanceErrorView::Drive(instance.drives@[first].image@)),
{
    let drives = instance.drives@;
    if 0 <= first < drives.len() && !images.contains_key(drives[first].image@) && (forall|i: int|
        0 <= i < first ==> images.contains_key((#[trigger] drives[i]).image@)) {
        let before = drives.take(first);
        assert forall|i: int| 0 <= i < before.len() implies images.contains_key(
            (#[trigger] before[i]).image@,
        ) by {
            assert(before[i] == drives[i]);
        }
        lemma_drives_suffice(images, before);
        assert(drives.take(first + 1).drop_last() =~= before);
        lemma_missing_drive(images, drives, first + 1);
    }
}

/// There is a machine under no name but that of an instance.
pub proof fn lemma_only_instances_are_had<B, C, M>(
    firecracker: Seq<u8>,
    instances: Seq<(String, Instance<B, C, M>)>,
    kernel_config: Kernel,
    kernel: Seq<u8>,
    images: Map<Seq<char>, Seq<u8>>,
    name: Seq<char>,
)
    ensures
        instances_spec(firecracker, instances, kernel_config, kernel, images) matches Ok(vms)
            ==> vms.contains_key(name) ==> exists|i: int|
            0 <= i < instances.len() && (#[trigger] instances[i]).0@ == name,
    decreases instances.len(),
{
    if instances.len() > 0 {
        let before = instances.drop_last();
        lemma_only_instances_are_had(firecracker, before, kernel_config, kernel, images, name);
        if let Ok(vms) = instances_spec(firecracker, instances, kernel_config, kernel, images) {
            if vms.contains_key(name) {
                if instances.last().0@ == name {
                    assert(instances[instances.len() - 1].0@ == name);
                } else {
                    let i = choose|i: int|
                        0 <= i < before.len() && (#[trigger] before[i]).0@ == name;
                    assert(instances[i].0@ == name);
                }
            }
        }
    }
}

/// A search after what it wanted was found at `paths`, one after the other.
pub open spec fn search_after(
    has_firecracker: bool,
    has_kernel: bool,
    images: Seq<Seq<char>>,
    paths: Seq<Seq<u8>>,
) -> SetupState
    decreases paths.len(),
{
    if paths.len() == 0 {
        SetupState {
            has_firecracker,
            has_kernel,
            images,
            firecracker: None,
            kernel: None,
            image_paths: Map::empty(),
            next_image: 0,
        }
    } else {
        with_found(
            search_after(has_firecracker, has_kernel, images, paths.drop_last()),
            paths.last(),
        )
    }
}

/// A search asks for the binary, for the kernel and for each image in order, each once, and keeps
/// each where it was found; of images that go by one name the last counts. Then it is over, and it
/// asks for nothing else.
pub proof fn lemma_search_in_order(images: Seq<Seq<char>>, paths: Seq<Seq<u8>>)
    requires
        paths.len() <= images.len() + 2,
    ensures
        ({
            let state = search_after(true, true, images, paths);
            let n = paths.len() as int;
            &&& n == 0 ==> wanted(state) == SetupActionView::FindFirecracker
            &&& n == 1 ==> wanted(state) == SetupActionView::FindKernel
            &&& 2 <= n < images.len() + 2 ==> wanted(state) == SetupActionView::FindImage(
                images[n - 2],
            )
            &&& n == images.len() + 2 ==> wanted(state) == SetupActionView::Ready
            &&& n > 0 ==> state.firecracker == Some(paths[0])
            &&& n > 1 ==> state.kernel == Some(paths[1])
            &&& forall|i: int|
                #![trigger images[i]]
                0 <= i < n - 2 && (forall|j: int|
                    i < j < n - 2 ==> (#[trigger] images[j]) != images[i])
                    ==> state.image_paths.contains_key(images[i]) && state.image_paths[images[i]]
                    == paths[i + 2]
        }),
{
    lemma_search_state(images, paths);
}

proof fn lemma_search_state(images: Seq<Seq<char>>, paths: Seq<Seq<u8>>)
    requires
        paths.len() <= images.len() + 2,
    ensures
        ({
            let state = search_after(true, true, images, paths);
            let n = paths.len() as int;
            &&& state.has_firecracker && state.has_kernel
            &&& state.images == images
            &&& state.next_image == if n > 2 {
                n - 2
            } else {
                0
            }
            &&& state.firecracker == if n > 0 {
                Some(paths[0])
            } else {
                None
            }
            &&& state.kernel == if n > 1 {
                Some(paths[1])
            } else {
                None
            }
            &&& forall|i: int|
                #![trigger images[i]]
                0 <= i < n - 2 && (forall|j: int|
                    i < j < n - 2 ==> (#[trigger] images[j]) != images[i])
                    ==> state.image_paths.contains_key(images[i]) && state.image_paths[images[i]]
                    == paths[i + 2]
        }),
    decreases paths.len(),
{
    if paths.len() > 0 {
        let before = paths.drop_last();
        let n = paths.len() as int;
        lemma_search_state(images, before);
        let earlier = search_after(true, true, images, before);
        let state = search_after(true, true, images, paths);
        assert forall|i: int|
            #![trigger images[i]]
            0 <= i < n - 2 && (forall|j: int|
                i < j < n - 2 ==> (#[trigger] images[j])
                    != images[i]) implies state.image_paths.contains_key(images[i])
            && state.image_paths[images[i]] == paths[i + 2] by {
            if i < n - 3 {
                assert(images[n - 3] != images[i]);
                assert(earlier.image_paths[images[i]] == before[i + 2]);
            }
        }
    }
}

/// A configuration without the section for the binary is refused before anything is looked for, and
/// one without the section for the kernel once the binary is found.
pub proof fn lemma_section_is_missing(
    has_kernel: bool,
    images: Seq<Seq<char>>,
    path: Seq<u8>,
)
    ensures
        wanted(search_after(false, has_kernel, images, Seq::empty())) == SetupActionView::Fail(
            SetupErrorView::NoFirecracker,
        ),
        wanted(search_after(true, false, images, Seq::empty()))
            == SetupActionView::FindFirecracker,
        wanted(search_after(true, false, images, seq![path])) == SetupActionView::Fail(
            SetupErrorView::NoKernel,
        ),
{
    assert(seq![path].drop_last() =~= Seq::<Seq<u8>>::empty());
    let start = search_after(true, false, images, Seq::empty());
    assert(search_after(true, false, images, seq![path]) == with_found(start, path));
}

/// What is said of instances that cannot be had names what is missing.
pub proof fn lemma_missing_is_explained(name: Seq<char>, cause: InstanceErrorView)
    ensures
        instance_error_text(InstanceErrorView::Rootfs(name)) == "failed to find rootfs image: "@
            + name,
        instance_error_text(InstanceErrorView::Drive(name)) == "failed to find drive: "@ + name,
        setup_error_text(SetupErrorView::NoFirecracker) == "[firecracker] config missing"@,
        setup_error_text(SetupErrorView::NoKernel) == "[kernel] config missing"@,
        setup_error_text(SetupErrorView::Build { name, cause }) == "failed to build: "@ + name,
        setup_error_text(SetupErrorView::UnknownInstance(name)) == "Unknown instance: "@ + name,
{
}

} // verus!
