use ron::kernel::vfs::Path;
use ron::x86_kernel::vfs::Path as X86Path;
use ron::rlibc::file::fopen_flags;
use ron::rlibc::sys::SyscallNumber;
use ron::x86_kernel::ata::LBA28;
use ron::x86_kernel::framebuffer::Pixel;

#[test]
fn kernel_paths() {
    let mut p = Path::try_from_str("/usr/bin/").unwrap();
    assert_eq!(p.last(), Some("bin"));
    p.append_str("ls");
    assert_eq!(p.last(), Some("ls"));
    p.del_last();
    p.del_last();
    assert_eq!(p.last(), Some("usr"));
    p.del_last();
    assert_eq!(p.into_inner(), "/");
    assert!(Path::try_from_str("usr").is_err());
    assert_eq!(Path::root().last(), None);
}

#[test]
fn x86_paths() {
    let mut p = X86Path::try_from_str("/mnt").unwrap();
    p.push_str("disk");
    assert_eq!(p.last(), "disk");
    p.del_last();
    assert_eq!(p.last(), "mnt");
    assert!(p.same_as(&X86Path::try_from_str("/mnt").unwrap()));
}

#[test]
fn lba28_round_trip() {
    let l = LBA28::from_u32(0x00bc_def1);
    assert_eq!((l.low, l.mid, l.hi), (0xf1, 0xde, 0xbc));
    assert_eq!(l.into_u32(), 0x00bc_def1);
    // only the low three bytes are kept
    assert_eq!(LBA28::from_u32(0x0abc_def1).into_u32(), 0x00bc_def1);
}

#[test]
fn pixels_from_words() {
    let p = Pixel::from_u32_rgb(0x0011_2233);
    assert_eq!((p.r, p.g, p.b), (0x11, 0x22, 0x33));
    let q = Pixel::from_u32_bgr(0x0011_2233);
    assert_eq!((q.r, q.g, q.b), (0x33, 0x22, 0x11));
}

#[test]
fn fopen_modes() {
    assert_eq!(fopen_flags("r"), Some(0b00001));
    assert_eq!(fopen_flags("w"), Some(0b00010 | 0b01000 | 0b10000));
    assert_eq!(fopen_flags("a+"), Some(0b00011 | 0b00100 | 0b01000));
    assert_eq!(fopen_flags("x"), None);
}

#[test]
fn syscall_numbers_round_trip() {
    for n in 0..40usize {
        if let Ok(s) = SyscallNumber::try_from_number(n) {
            assert_eq!(s.number(), n);
        }
    }
    assert!(SyscallNumber::try_from_number(1000).is_err());
}
