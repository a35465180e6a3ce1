# bevy_drm_vk

Shows a Bevy primary window full screen on a Linux DRM/KMS device.

- `src/` is the verified library. `selection` says, for a model of a
  device, what the output search finds and which reads it makes; `search`
  is that search, driven one read at a time; `plane` finds a plane's type from its properties;
  `mode` holds display modes and the preferred-mode rule; `window` decides
  what closing a window tears down; `device` holds the requests and replies
  exchanged with the one who reads the device, and a model of a device for
  the contracts.
- The searches are driven one device read at a time: each returns the read
  it needs next, and the caller hands back the reply. Their contracts say
  that driving a search with the answers of one device ends, ends with
  what the specification functions say of that device, and makes exactly
  the reads they say, none after the read that decides the result.
- `app/` performs the reads with the `drm` crate and holds the Bevy plugin,
  the window handles and the window teardown system.
