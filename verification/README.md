# sugar-wifi-conf-rs

A BLE service that lets a phone configure a Raspberry Pi's Wi-Fi (PiSugar clients):
the client writes `key%&%ssid%&%password` requests and custom-command requests to
GATT characteristics, and reads status (Wi-Fi name, IP addresses, custom info).

The decisions of the service are a library verified with Verus (`src/`):

- `proto`: reassembly of `&#&`-terminated writes and framing of notifications;
- `wifi`, `wifi_flow`: request parsing, `wpa_supplicant.conf` rewriting, and the
  configuration procedures (NetworkManager, then `wpa_supplicant`) as state machines,
  whose status lines never show the password (it is masked as `***`);
- `custom_command`, `custom_info`: 1-based 4-hex suffixes, command lookup, polling;
- `status`: the Wi-Fi name and the ordered IP address list;
- `gatt`, `ble`: the characteristics offered and the reply to every client write;
- `exec`, `uuid`, `text`, `config`: shared pieces.

`app/` holds the program around it: argument parsing, D-Bus (zbus), processes and
files (tokio). `tests/` exercises the library.
