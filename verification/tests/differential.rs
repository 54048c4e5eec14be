use linux_agent::plugins::reverse_shell::ReverseShellDetector;

struct Generator(u64);

impl Generator {
    fn next(&mut self) -> u64 {
        self.0 = self.0.wrapping_mul(6364136223846793005).wrapping_add(1442695040888963407);
        self.0 >> 33
    }

    fn text(&mut self, alphabet: &[char], max_len: u64) -> String {
        let len = self.next() % (max_len + 1);
        (0..len).map(|_| alphabet[(self.next() % alphabet.len() as u64) as usize]).collect()
    }
}

fn address_by_the_standard_library(ip: &str) -> u32 {
    let parts: Vec<u8> = ip.split('.').map(|p| p.parse::<u8>().unwrap_or(0)).collect();
    if parts.len() == 4 {
        ((parts[0] as u32) << 24)
            | ((parts[1] as u32) << 16)
            | ((parts[2] as u32) << 8)
            | (parts[3] as u32)
    } else {
        0
    }
}

#[test]
fn addresses_are_read_as_the_standard_library_reads_them() {
    let alphabet = ['0', '1', '2', '5', '9', '.', '.', '.', '+', '-', ' ', 'a'];
    let mut generator = Generator(1);
    for _ in 0..20000 {
        let text = generator.text(&alphabet, 12);
        assert_eq!(
            ReverseShellDetector::ip_to_u32(&text),
            address_by_the_standard_library(&text),
            "{:?}",
            text
        );
    }
}

#[test]
fn addresses_are_written_as_the_standard_library_writes_them() {
    let mut generator = Generator(2);
    for _ in 0..20000 {
        let ip = (generator.next() as u32) ^ ((generator.next() as u32) << 16);
        let expected = format!(
            "{}.{}.{}.{}",
            (ip >> 24) & 0xFF,
            (ip >> 16) & 0xFF,
            (ip >> 8) & 0xFF,
            ip & 0xFF
        );
        let text = ReverseShellDetector::u32_to_ip(ip);
        assert_eq!(text, expected);
        assert_eq!(ReverseShellDetector::ip_to_u32(&text), ip);
    }
}

#[test]
fn process_ids_are_read_as_the_standard_library_reads_them() {
    let alphabet = ['0', '1', '4', '2', '9', '7', '+', '-', ' ', 'x'];
    let mut generator = Generator(3);
    for _ in 0..20000 {
        let text = generator.text(&alphabet, 11);
        assert_eq!(ReverseShellDetector::parse_pid(&text), text.parse::<u32>().ok(), "{:?}", text);
    }
}

#[test]
fn well_formed_endpoints_are_read_as_the_standard_library_reads_them() {
    let mut generator = Generator(4);
    for _ in 0..5000 {
        let addr = (generator.next() as u32) ^ ((generator.next() as u32) << 16);
        let port = generator.next() as u16;
        let text = if generator.next() % 2 == 0 {
            format!("{:08X}:{:04X}", addr, port)
        } else {
            format!("{:08x}:{:04x}", addr, port)
        };
        assert_eq!(
            ReverseShellDetector::parse_addr_port(&text),
            Ok((addr.swap_bytes(), port)),
            "{:?}",
            text
        );
        assert_eq!(ReverseShellDetector::hex_to_ip_u32(&text[..8]), Ok(addr.swap_bytes()));
    }
}

#[test]
fn private_ranges_are_what_the_masks_say() {
    let mut generator = Generator(5);
    for _ in 0..50000 {
        let mut ip = (generator.next() as u32) ^ ((generator.next() as u32) << 16);
        match generator.next() % 6 {
            0 => ip = (ip & 0x00FF_FFFF) | 0x7F00_0000,
            1 => ip = (ip & 0x00FF_FFFF) | 0x0A00_0000,
            2 => ip = (ip & 0x001F_FFFF) | 0xAC00_0000,
            3 => ip = (ip & 0x0003_FFFF) | 0xC0A8_0000,
            _ => {}
        }
        let expected = (ip & 0xFF00_0000) == 0x7F00_0000
            || (ip & 0xFF00_0000) == 0x0A00_0000
            || (ip & 0xFFF0_0000) == 0xAC10_0000
            || (ip & 0xFFFF_0000) == 0xC0A8_0000;
        assert_eq!(ReverseShellDetector::is_private_ip_u32(ip), expected, "{:08X}", ip);
    }
}
